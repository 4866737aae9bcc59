//! Proxy detection and resolution for git commands.
//!
//! Strategy:
//! 1. `--proxy off`  → never use a proxy
//! 2. `--proxy <url>` → always use that URL on network failure
//! 3. `--proxy auto` (default) → only probe when a git command fails with a
//!    network error; probe order: environment variables (HTTPS_PROXY →
//!    HTTP_PROXY → ALL_PROXY) → OS system proxy.
use vstd::prelude::*;
use crate::git::{opt_view, CommandOutput};
use crate::text::{
    concat2, contains_chars, contains_seq, from_chars, lines, lines_of, slice_chars, split_chars,
    split_on, starts_with, starts_with_chars, str_eq, text_from_bytes, to_chars, to_lowercase,
    lowercase, to_string, trim, trim_chars, trim_quote_chars, trim_quotes, views, chars_eq,
    ascii_lower, ascii_upper, is_ascii_text, occurs_at,
};

verus! {

/// Represents the user's --proxy choice
pub enum ProxyMode {
    /// Default: auto-detect only on network failure
    Auto,
    /// Explicit proxy URL supplied by user
    Manual(String),
    /// Proxy disabled
    Off,
}

impl ProxyMode {
    /// The proxy mode a `--proxy` value selects: `auto` (in any case) is
    /// automatic; `off`, `none` and `no` (in any case) disable; anything
    /// else is a proxy URL, used as given.
    pub fn from_str(s: &str) -> (r: Self)
        ensures
            Self::selected_by(s@, lowercase(s@), r),
            is_ascii_text(s@) ==> Self::selected_by(s@, ascii_lower(s@), r),
    {
        let lower = to_lowercase(s);
        Self::from_forms(s, lower.as_str())
    }

    /// The mode a `--proxy` value selects, given the value and its lowercase
    /// form.
    pub open spec fn selected_by(given: Seq<char>, l: Seq<char>, r: Self) -> bool {
        if l == "auto"@ {
            r is Auto
        } else if l == "off"@ || l == "none"@ || l == "no"@ {
            r is Off
        } else {
            r matches ProxyMode::Manual(url) && url@ == given
        }
    }

    /// The proxy mode for a `--proxy` value, given with its lowercase form.
    pub fn from_forms(given: &str, lower: &str) -> (r: Self)
        ensures
            Self::selected_by(given@, lower@, r),
    {
        if str_eq(lower, "auto") {
            ProxyMode::Auto
        } else if str_eq(lower, "off") || str_eq(lower, "none") || str_eq(lower, "no") {
            ProxyMode::Off
        } else {
            ProxyMode::Manual(to_string(given))
        }
    }
}

/// A detected proxy URL together with its protocol type.
/// The scheme drives which env vars are injected into the git subprocess.
pub struct ProxyUrl {
    /// Full proxy URL, e.g. "http://127.0.0.1:7890" or "socks5://127.0.0.1:1080"
    pub url: String,
    /// Whether this is a SOCKS proxy (git reads ALL_PROXY for SOCKS)
    pub is_socks: bool,
}

impl ProxyUrl {
    fn http(url: String) -> (r: Self)
        ensures
            r.url@ == url@,
            !r.is_socks,
    {
        ProxyUrl { url, is_socks: false }
    }

    fn socks(url: String) -> (r: Self)
        ensures
            r.url@ == url@,
            r.is_socks,
    {
        ProxyUrl { url, is_socks: true }
    }

    /// Infer proxy type from URL scheme
    pub fn from_url(url: String) -> (r: Self)
        ensures
            r.url@ == url@,
            r.is_socks == starts_with(url@, "socks"@),
    {
        let is_socks = starts_with_chars(&to_chars(url.as_str()), &to_chars("socks"));
        ProxyUrl { url, is_socks }
    }
}

// ---------------------------------------------------------------------------
// Environment variables
// ---------------------------------------------------------------------------

/// The environment variables consulted, in order of preference.
pub open spec fn proxy_env_name_list() -> Seq<Seq<char>> {
    seq![
        "HTTPS_PROXY"@,
        "https_proxy"@,
        "HTTP_PROXY"@,
        "http_proxy"@,
        "ALL_PROXY"@,
        "all_proxy"@,
    ]
}

pub fn proxy_env_names() -> (r: Vec<String>)
    ensures
        views(r@) == proxy_env_name_list(),
{
    let r = vec![
        to_string("HTTPS_PROXY"),
        to_string("https_proxy"),
        to_string("HTTP_PROXY"),
        to_string("http_proxy"),
        to_string("ALL_PROXY"),
        to_string("all_proxy"),
    ];
    assert(views(r@) =~= proxy_env_name_list());
    r
}

/// The first value that is set and not blank, trimmed.
pub open spec fn first_set_value(values: Seq<Option<Seq<char>>>) -> Option<Seq<char>>
    decreases values.len(),
{
    if values.len() == 0 {
        None
    } else {
        let r = first_set_value(values.drop_last());
        if r is Some {
            r
        } else {
            match values.last() {
                Some(v) => if trim(v).len() > 0 {
                    Some(trim(v))
                } else {
                    None
                },
                None => None,
            }
        }
    }
}

pub open spec fn opt_views(values: Seq<Option<String>>) -> Seq<Option<Seq<char>>> {
    Seq::new(values.len(), |i: int| opt_view(values[i]))
}

/// The proxy given by the environment: the values of the variables of
/// `proxy_env_names`, in that order (`None` where unset).
pub fn proxy_from_env(values: &Vec<Option<String>>) -> (r: Option<ProxyUrl>)
    ensures
        match first_set_value(opt_views(values@)) {
            Some(v) => r matches Some(p) && p.url@ == v && p.is_socks == starts_with(v, "socks"@),
            None => r is None,
        },
{
    let ghost vs = opt_views(values@);
    let mut i: usize = 0;
    assert(vs.take(0) =~= Seq::<Option<Seq<char>>>::empty());
    while i < values.len()
        invariant
            i <= values@.len(),
            vs == opt_views(values@),
            first_set_value(vs.take(i as int)) is None,
        decreases values@.len() - i,
    {
        assert(vs.take(i + 1).drop_last() =~= vs.take(i as int));
        assert(vs.take(i + 1).last() == opt_view(values@[i as int]));
        match &values[i] {
            Some(v) => {
                let t = trim_chars(&to_chars(v.as_str()));
                if t.len() > 0 {
                    proof {
                        lemma_first_set_prefix(vs, i + 1);
                    }
                    return Some(ProxyUrl::from_url(from_chars(&t)));
                }
            },
            None => {},
        }
        i = i + 1;
    }
    assert(vs.take(values@.len() as int) =~= vs);
    None
}

proof fn lemma_first_set_prefix(vs: Seq<Option<Seq<char>>>, k: int)
    requires
        0 <= k <= vs.len(),
        first_set_value(vs.take(k)) is Some,
    ensures
        first_set_value(vs) == first_set_value(vs.take(k)),
    decreases vs.len(),
{
    if k == vs.len() {
        assert(vs.take(k) =~= vs);
    } else {
        assert(vs.drop_last().take(k) =~= vs.take(k));
        lemma_first_set_prefix(vs.drop_last(), k);
    }
}

// ---------------------------------------------------------------------------
// Windows registry settings
// ---------------------------------------------------------------------------

/// A proxy address with a scheme: `http://` is put in front of one that has
/// none.
pub open spec fn with_scheme(raw: Seq<char>) -> Seq<char> {
    if contains_seq(raw, "://"@) {
        raw
    } else {
        "http://"@ + raw
    }
}

/// The address a `protocol=address` part of a `ProxyServer` value gives.
pub open spec fn protocol_part(part: Seq<char>, protocol: Seq<char>) -> Option<Seq<char>> {
    let p = trim(part);
    let prefix = protocol + "="@;
    if starts_with(p, prefix) {
        let rest = trim(p.skip(prefix.len() as int));
        if rest.len() > 0 {
            Some(with_scheme(rest))
        } else {
            None
        }
    } else {
        None
    }
}

/// The first part that gives an address for the protocol.
pub open spec fn first_protocol_part(parts: Seq<Seq<char>>, protocol: Seq<char>) -> Option<Seq<char>>
    decreases parts.len(),
{
    if parts.len() == 0 {
        None
    } else {
        let r = first_protocol_part(parts.drop_last(), protocol);
        if r is Some {
            r
        } else {
            protocol_part(parts.last(), protocol)
        }
    }
}

/// The address for one protocol in a `http=host:port;https=host:port` value.
pub open spec fn protocol_proxy(proxy_server: Seq<char>, protocol: Seq<char>) -> Option<Seq<char>> {
    first_protocol_part(split_on(proxy_server, ';'), protocol)
}

proof fn lemma_first_part_prefix(parts: Seq<Seq<char>>, protocol: Seq<char>, k: int)
    requires
        0 <= k <= parts.len(),
        first_protocol_part(parts.take(k), protocol) is Some,
    ensures
        first_protocol_part(parts, protocol) == first_protocol_part(parts.take(k), protocol),
    decreases parts.len(),
{
    if k == parts.len() {
        assert(parts.take(k) =~= parts);
    } else {
        assert(parts.drop_last().take(k) =~= parts.take(k));
        lemma_first_part_prefix(parts.drop_last(), protocol, k);
    }
}

fn with_scheme_chars(raw: Vec<char>) -> (r: String)
    ensures
        r@ == with_scheme(raw@),
{
    if contains_chars(&raw, &to_chars("://")) {
        from_chars(&raw)
    } else {
        concat2("http://", from_chars(&raw).as_str())
    }
}

/// Extracts the address for one protocol from a Windows `ProxyServer` value
/// (`http=1.2.3.4:8080;https=1.2.3.4:8080`).
pub fn extract_proxy_for_protocol(proxy_server: &str, protocol: &str) -> (r: Option<String>)
    ensures
        opt_view(r) == protocol_proxy(proxy_server@, protocol@),
{
    let parts = split_chars(&to_chars(proxy_server), ';');
    let ghost pv = views(parts@);
    let mut prefix = to_chars(protocol);
    prefix.push('=');
    proof {
        reveal_strlit("=");
    }
    assert(prefix@ =~= protocol@ + "="@);
    let mut i: usize = 0;
    assert(pv.take(0) =~= Seq::<Seq<char>>::empty());
    while i < parts.len()
        invariant
            i <= parts@.len(),
            pv == views(parts@),
            pv == split_on(proxy_server@, ';'),
            prefix@ == protocol@ + "="@,
            first_protocol_part(pv.take(i as int), protocol@) is None,
        decreases parts@.len() - i,
    {
        assert(pv.take(i + 1).drop_last() =~= pv.take(i as int));
        assert(pv.take(i + 1).last() == parts@[i as int]@);
        let p = trim_chars(&parts[i]);
        if starts_with_chars(&p, &prefix) {
            let rest = trim_chars(&slice_chars(&p, prefix.len(), p.len()));
            assert(p@.subrange(prefix@.len() as int, p@.len() as int) =~= p@.skip(
                prefix@.len() as int,
            ));
            if rest.len() > 0 {
                let r = with_scheme_chars(rest);
                proof {
                    lemma_first_part_prefix(pv, protocol@, i + 1);
                }
                return Some(r);
            }
        }
        i = i + 1;
    }
    assert(pv.take(parts@.len() as int) =~= pv);
    None
}

/// The proxy of the Windows Internet Settings, given `ProxyEnable` and
/// `ProxyServer`: none when disabled or blank; else the https entry, the
/// http entry, or the whole value, with a scheme.
pub open spec fn windows_proxy(enabled: u32, proxy_server: Seq<char>) -> Option<Seq<char>> {
    let server = trim(proxy_server);
    if enabled == 0 || server.len() == 0 {
        None
    } else {
        let raw = match protocol_proxy(server, "https"@) {
            Some(u) => u,
            None => match protocol_proxy(server, "http"@) {
                Some(u) => u,
                None => server,
            },
        };
        Some(with_scheme(raw))
    }
}

/// Read the OS system proxy setting from the values of the Windows registry.
pub fn windows_system_proxy(enabled: u32, proxy_server: &str) -> (r: Option<ProxyUrl>)
    ensures
        match windows_proxy(enabled, proxy_server@) {
            Some(u) => r matches Some(p) && p.url@ == u && p.is_socks == starts_with(u, "socks"@),
            None => r is None,
        },
{
    if enabled == 0 {
        return None;
    }
    let server = from_chars(&trim_chars(&to_chars(proxy_server)));
    if server.unicode_len() == 0 {
        return None;
    }
    let raw = match extract_proxy_for_protocol(server.as_str(), "https") {
        Some(u) => u,
        None => match extract_proxy_for_protocol(server.as_str(), "http") {
            Some(u) => u,
            None => server,
        },
    };
    let url = with_scheme_chars(to_chars(raw.as_str()));
    Some(ProxyUrl::from_url(url))
}

// ---------------------------------------------------------------------------
// macOS networksetup
// ---------------------------------------------------------------------------

/// State read so far from `networksetup -get...proxy` lines:
/// (enabled, server, port); a later line of a kind overrides an earlier one.
pub open spec fn networksetup_state(ls: Seq<Seq<char>>) -> (bool, Seq<char>, Seq<char>)
    decreases ls.len(),
{
    if ls.len() == 0 {
        (false, Seq::empty(), Seq::empty())
    } else {
        let (enabled, server, port) = networksetup_state(ls.drop_last());
        let line = ls.last();
        if starts_with(line, "Enabled:"@) {
            (contains_seq(line, "Yes"@), server, port)
        } else if starts_with(line, "Server:"@) {
            (enabled, trim(line.skip(7)), port)
        } else if starts_with(line, "Port:"@) {
            (enabled, server, trim(line.skip(5)))
        } else {
            (enabled, server, port)
        }
    }
}

/// The proxy URL that a `networksetup` answer describes, for a scheme.
pub open spec fn networksetup_proxy(success: bool, text: Seq<char>, scheme: Seq<char>) -> Option<Seq<char>> {
    if !success {
        None
    } else {
        let (enabled, server, port) = networksetup_state(lines(text));
        if enabled && server.len() > 0 && port != "0"@ {
            Some(scheme + "://"@ + server + ":"@ + port)
        } else {
            None
        }
    }
}

/// Query a single `networksetup` proxy type for one network interface:
/// reads its answer; the proxy URL if the proxy is enabled, otherwise None.
pub fn query_networksetup(output: &CommandOutput, scheme: &str) -> (r: Option<String>)
    ensures
        opt_view(r) == networksetup_proxy(output.success, output.stdout_text(), scheme@),
{
    if !output.success {
        return None;
    }
    networksetup_proxy_from_text(text_from_bytes(&output.stdout).as_str(), scheme)
}

/// The proxy URL described by the text of a successful `networksetup`
/// answer, for a scheme.
pub fn networksetup_proxy_from_text(text: &str, scheme: &str) -> (r: Option<String>)
    ensures
        opt_view(r) == networksetup_proxy(true, text@, scheme@),
{
    let ls = lines_of(&to_chars(text));
    let ghost lv = views(ls@);
    let enabled_key = to_chars("Enabled:");
    let server_key = to_chars("Server:");
    let port_key = to_chars("Port:");
    let yes = to_chars("Yes");
    proof {
        reveal_strlit("Server:");
        reveal_strlit("Port:");
    }
    let mut enabled = false;
    let mut server: Vec<char> = Vec::new();
    let mut port: Vec<char> = Vec::new();
    let mut i: usize = 0;
    assert(lv.take(0) =~= Seq::<Seq<char>>::empty());
    while i < ls.len()
        invariant
            i <= ls@.len(),
            lv == views(ls@),
            enabled_key@ == "Enabled:"@,
            server_key@ == "Server:"@,
            port_key@ == "Port:"@,
            server_key@.len() == 7,
            port_key@.len() == 5,
            yes@ == "Yes"@,
            networksetup_state(lv.take(i as int)) == (enabled, server@, port@),
        decreases ls@.len() - i,
    {
        assert(lv.take(i + 1).drop_last() =~= lv.take(i as int));
        assert(lv.take(i + 1).last() == ls@[i as int]@);
        let line = &ls[i];
        if starts_with_chars(line, &enabled_key) {
            enabled = contains_chars(line, &yes);
        } else if starts_with_chars(line, &server_key) {
            server = trim_chars(&slice_chars(line, 7, line.len()));
            assert(line@.subrange(7, line@.len() as int) =~= line@.skip(7));
        } else if starts_with_chars(line, &port_key) {
            port = trim_chars(&slice_chars(line, 5, line.len()));
            assert(line@.subrange(5, line@.len() as int) =~= line@.skip(5));
        }
        i = i + 1;
    }
    assert(lv.take(ls@.len() as int) =~= lv);
    if enabled && server.len() > 0 && !chars_eq(&port, &to_chars("0")) {
        let mut r = to_string(scheme);
        r.append("://");
        r.append(from_chars(&server).as_str());
        r.append(":");
        r.append(from_chars(&port).as_str());
        Some(r)
    } else {
        None
    }
}

/// The `networksetup` questions, in the order they are asked:
/// (interface, flag, scheme). Interfaces Wi-Fi, Ethernet, en0, en1; for
/// each, the HTTPS, then SOCKS, then HTTP proxy.
pub open spec fn macos_query_list() -> Seq<(Seq<char>, Seq<char>, Seq<char>)> {
    let ifaces = seq!["Wi-Fi"@, "Ethernet"@, "en0"@, "en1"@];
    let kinds = seq![
        ("-getsecurewebproxy"@, "https"@),
        ("-getsocksfirewallproxy"@, "socks5"@),
        ("-getwebproxy"@, "http"@),
    ];
    Seq::new(12, |i: int| (ifaces[i / 3], kinds[i % 3].0, kinds[i % 3].1))
}

/// The `networksetup` questions asked to find the macOS system proxy.
pub fn macos_proxy_queries() -> (r: Vec<(String, String, String)>)
    ensures
        r@.len() == 12,
        forall|i: int| 0 <= i < 12 ==> (#[trigger] r@[i].0@, r@[i].1@, r@[i].2@) == macos_query_list()[i],
{
    let ifaces = vec![to_string("Wi-Fi"), to_string("Ethernet"), to_string("en0"), to_string("en1")];
    let flags = vec![
        to_string("-getsecurewebproxy"),
        to_string("-getsocksfirewallproxy"),
        to_string("-getwebproxy"),
    ];
    let schemes = vec![to_string("https"), to_string("socks5"), to_string("http")];
    let mut r: Vec<(String, String, String)> = Vec::new();
    let mut a: usize = 0;
    while a < 4
        invariant
            a <= 4,
            ifaces@.len() == 4,
            flags@.len() == 3,
            schemes@.len() == 3,
            views(ifaces@) == seq!["Wi-Fi"@, "Ethernet"@, "en0"@, "en1"@],
            views(flags@) == seq!["-getsecurewebproxy"@, "-getsocksfirewallproxy"@, "-getwebproxy"@],
            views(schemes@) == seq!["https"@, "socks5"@, "http"@],
            r@.len() == a * 3,
            forall|i: int| 0 <= i < a * 3 ==> (#[trigger] r@[i].0@, r@[i].1@, r@[i].2@) == macos_query_list()[i],
        decreases 4 - a,
    {
        let mut b: usize = 0;
        while b < 3
            invariant
                a < 4,
                b <= 3,
                ifaces@.len() == 4,
                flags@.len() == 3,
                schemes@.len() == 3,
                views(ifaces@) == seq!["Wi-Fi"@, "Ethernet"@, "en0"@, "en1"@],
                views(flags@) == seq!["-getsecurewebproxy"@, "-getsocksfirewallproxy"@, "-getwebproxy"@],
                views(schemes@) == seq!["https"@, "socks5"@, "http"@],
                r@.len() == a * 3 + b,
                forall|i: int| 0 <= i < a * 3 + b ==> (#[trigger] r@[i].0@, r@[i].1@, r@[i].2@) == macos_query_list()[i],
            decreases 3 - b,
        {
            let entry = (ifaces[a].clone(), flags[b].clone(), schemes[b].clone());
            let ghost k = a * 3 + b;
            assert(k / 3 == a && k % 3 == b) by (nonlinear_arith)
                requires k == a * 3 + b, b < 3;
            assert(views(ifaces@)[a as int] == ifaces@[a as int]@);
            assert(views(flags@)[b as int] == flags@[b as int]@);
            assert(views(schemes@)[b as int] == schemes@[b as int]@);
            r.push(entry);
            b = b + 1;
        }
        a = a + 1;
    }
    r
}

/// The proxy a `networksetup` answer gives: SOCKS for the socks5 scheme.
pub fn macos_proxy(scheme: &str, url: String) -> (r: ProxyUrl)
    ensures
        r.url@ == url@,
        r.is_socks == (scheme@ == "socks5"@),
{
    if str_eq(scheme, "socks5") {
        ProxyUrl::socks(url)
    } else {
        ProxyUrl::http(url)
    }
}

// ---------------------------------------------------------------------------
// Linux GNOME gsettings
// ---------------------------------------------------------------------------

/// A `gsettings get` value: none on failure; else trimmed, its quotes
/// removed, none when empty.
pub open spec fn gsettings_from(success: bool, text: Seq<char>) -> Option<Seq<char>> {
    if !success {
        None
    } else {
        let v = trim_quotes(trim(text));
        if v.len() == 0 {
            None
        } else {
            Some(v)
        }
    }
}

/// Reads the answer of `gsettings get <schema> <key>`.
pub fn gsettings_get(output: &CommandOutput) -> (r: Option<String>)
    ensures
        opt_view(r) == gsettings_from(output.success, output.stdout_text()),
{
    if !output.success {
        return None;
    }
    gsettings_value(text_from_bytes(&output.stdout).as_str())
}

/// The value in the text of a successful `gsettings get`.
pub fn gsettings_value(text: &str) -> (r: Option<String>)
    ensures
        opt_view(r) == gsettings_from(true, text@),
{
    let v = trim_quote_chars(&trim_chars(&to_chars(text)));
    if v.len() == 0 {
        None
    } else {
        Some(from_chars(&v))
    }
}

/// Whether `gsettings get org.gnome.system.proxy mode` answered `'manual'`.
pub fn gsettings_mode_is_manual(output: &CommandOutput) -> (r: bool)
    ensures
        r == (output.success && trim(output.stdout_text()) == "'manual'"@),
{
    if !output.success {
        return false;
    }
    is_manual_mode(text_from_bytes(&output.stdout).as_str())
}

/// Whether the text of a `gsettings get org.gnome.system.proxy mode` answer
/// is `'manual'`.
pub fn is_manual_mode(text: &str) -> (r: bool)
    ensures
        r == (trim(text@) == "'manual'"@),
{
    chars_eq(&trim_chars(&to_chars(text)), &to_chars("'manual'"))
}

/// The GNOME proxy for a host and port: none for port 0; a SOCKS proxy
/// `socks5://host:port`, or an HTTP proxy `http://host:port`.
pub fn linux_proxy(host: &str, port: &str, socks: bool) -> (r: Option<ProxyUrl>)
    ensures
        port@ == "0"@ ==> r is None,
        port@ != "0"@ ==> (r matches Some(p) && p.is_socks == socks && p.url@ == (if socks {
            "socks5://"@
        } else {
            "http://"@
        }) + host@ + ":"@ + port@),
{
    if str_eq(port, "0") {
        return None;
    }
    let mut url = if socks {
        to_string("socks5://")
    } else {
        to_string("http://")
    };
    url.append(host);
    url.append(":");
    url.append(port);
    if socks {
        Some(ProxyUrl::socks(url))
    } else {
        Some(ProxyUrl::http(url))
    }
}

// ---------------------------------------------------------------------------
// Network error detection
// ---------------------------------------------------------------------------

/// Texts of git's error output that point to a network failure.
pub open spec fn network_pattern_list() -> Seq<Seq<char>> {
    seq![
        "could not resolve host"@,
        "could not connect"@,
        "connection refused"@,
        "connection timed out"@,
        "operation timed out"@,
        "network is unreachable"@,
        "failed to connect"@,
        "unable to access"@,
        "ssl certificate"@,
        "ssl_connect"@,
        "openssl ssl_connect"@,
        "curl error"@,
        "recv failure"@,
        "send failure"@,
        "gnutls"@,
        "fatal: repository"@,
        "error: server certificate"@,
    ]
}

/// Determine whether a git command's stderr indicates a network-level failure:
/// its lowercase form contains one of the network patterns.
pub fn is_network_error(stderr: &str) -> (r: bool)
    ensures
        r == names_network_failure(lowercase(stderr@)),
        is_ascii_text(stderr@) ==> r == names_network_failure(ascii_lower(stderr@)),
{
    mentions_network_failure(to_lowercase(stderr).as_str())
}

/// Lowercasing ASCII text works character by character.
proof fn lemma_ascii_lower_concat(a: Seq<char>, b: Seq<char>)
    ensures
        ascii_lower(a + b) == ascii_lower(a) + ascii_lower(b),
{
    assert(ascii_lower(a + b) =~= ascii_lower(a) + ascii_lower(b));
}

/// An ASCII error text that points to a network failure still does inside
/// any longer ASCII text.
pub proof fn law_network_error_monotone(a: Seq<char>, s: Seq<char>, b: Seq<char>)
    requires
        is_ascii_text(a),
        is_ascii_text(s),
        is_ascii_text(b),
        names_network_failure(ascii_lower(s)),
    ensures
        is_ascii_text(a + s + b),
        names_network_failure(ascii_lower(a + s + b)),
{
    assert(is_ascii_text(a + s + b)) by {
        assert forall|i: int| 0 <= i < (a + s + b).len() implies #[trigger] (a + s + b)[i] <= '\x7f' by {
            if i < a.len() {
                assert((a + s + b)[i] == a[i]);
            } else if i < a.len() + s.len() {
                assert((a + s + b)[i] == s[i - a.len()]);
            } else {
                assert((a + s + b)[i] == b[i - a.len() - s.len()]);
            }
        }
    }
    lemma_ascii_lower_concat(a + s, b);
    lemma_ascii_lower_concat(a, s);
    let la = ascii_lower(a);
    let ls = ascii_lower(s);
    let whole = la + ls + ascii_lower(b);
    let k = choose|k: int|
        0 <= k < network_pattern_list().len() && contains_seq(ls, #[trigger] network_pattern_list()[k]);
    let p = network_pattern_list()[k];
    let i = choose|i: int| occurs_at(ls, p, i);
    assert(whole.subrange(la.len() + i, la.len() + i + p.len()) =~= ls.subrange(i, i + p.len()));
    assert(occurs_at(whole, p, la.len() + i));
    assert(contains_seq(whole, network_pattern_list()[k]));
}

/// For ASCII text, whether it points to a network failure does not depend
/// on the case of its letters.
pub proof fn law_network_error_ignores_case(s: Seq<char>)
    requires
        is_ascii_text(s),
    ensures
        is_ascii_text(ascii_upper(s)),
        names_network_failure(ascii_lower(ascii_upper(s))) == names_network_failure(ascii_lower(s)),
{
    assert forall|i: int| 0 <= i < s.len() implies #[trigger] ascii_upper(s)[i] <= '\x7f' by {
        let c = s[i];
        if 'a' <= c && c <= 'z' {
            let u = ((c as int) - 32) as char;
            assert(u as int == c as int - 32);
        }
    }
    assert forall|i: int| 0 <= i < s.len() implies #[trigger] ascii_lower(ascii_upper(s))[i]
        == ascii_lower(s)[i] by {
        let c = s[i];
        if 'a' <= c && c <= 'z' {
            let u = ((c as int) - 32) as char;
            assert(u as int == c as int - 32);
        }
    }
    assert(ascii_lower(ascii_upper(s)) =~= ascii_lower(s));
}

/// Whether a text contains one of the network patterns.
pub open spec fn names_network_failure(lower: Seq<char>) -> bool {
    exists|i: int|
        0 <= i < network_pattern_list().len() && contains_seq(lower, #[trigger] network_pattern_list()[i])
}

/// The texts recognised as network failures are exactly those that contain,
/// once lowercased, one of these: "could not resolve host", "could not
/// connect", "connection refused", "connection timed out", "operation timed
/// out", "network is unreachable", "failed to connect", "unable to access",
/// "ssl certificate", "ssl_connect", "openssl ssl_connect", "curl error",
/// "recv failure", "send failure", "gnutls", "fatal: repository" or
/// "error: server certificate".
pub proof fn law_network_failure_texts(t: Seq<char>)
    ensures
        contains_seq(t, "could not resolve host"@) ==> names_network_failure(t),
        contains_seq(t, "could not connect"@) ==> names_network_failure(t),
        contains_seq(t, "connection refused"@) ==> names_network_failure(t),
        contains_seq(t, "connection timed out"@) ==> names_network_failure(t),
        contains_seq(t, "operation timed out"@) ==> names_network_failure(t),
        contains_seq(t, "network is unreachable"@) ==> names_network_failure(t),
        contains_seq(t, "failed to connect"@) ==> names_network_failure(t),
        contains_seq(t, "unable to access"@) ==> names_network_failure(t),
        contains_seq(t, "ssl certificate"@) ==> names_network_failure(t),
        contains_seq(t, "ssl_connect"@) ==> names_network_failure(t),
        contains_seq(t, "openssl ssl_connect"@) ==> names_network_failure(t),
        contains_seq(t, "curl error"@) ==> names_network_failure(t),
        contains_seq(t, "recv failure"@) ==> names_network_failure(t),
        contains_seq(t, "send failure"@) ==> names_network_failure(t),
        contains_seq(t, "gnutls"@) ==> names_network_failure(t),
        contains_seq(t, "fatal: repository"@) ==> names_network_failure(t),
        contains_seq(t, "error: server certificate"@) ==> names_network_failure(t),
        names_network_failure(t) ==> (contains_seq(t, "could not resolve host"@)
            || contains_seq(t, "could not connect"@)
            || contains_seq(t, "connection refused"@)
            || contains_seq(t, "connection timed out"@)
            || contains_seq(t, "operation timed out"@)
            || contains_seq(t, "network is unreachable"@)
            || contains_seq(t, "failed to connect"@)
            || contains_seq(t, "unable to access"@)
            || contains_seq(t, "ssl certificate"@)
            || contains_seq(t, "ssl_connect"@)
            || contains_seq(t, "openssl ssl_connect"@)
            || contains_seq(t, "curl error"@)
            || contains_seq(t, "recv failure"@)
            || contains_seq(t, "send failure"@)
            || contains_seq(t, "gnutls"@)
            || contains_seq(t, "fatal: repository"@)
            || contains_seq(t, "error: server certificate"@)),
{
    if contains_seq(t, "could not resolve host"@) {
        assert(network_pattern_list()[0] == "could not resolve host"@);
    }
    if contains_seq(t, "could not connect"@) {
        assert(network_pattern_list()[1] == "could not connect"@);
    }
    if contains_seq(t, "connection refused"@) {
        assert(network_pattern_list()[2] == "connection refused"@);
    }
    if contains_seq(t, "connection timed out"@) {
        assert(network_pattern_list()[3] == "connection timed out"@);
    }
    if contains_seq(t, "operation timed out"@) {
        assert(network_pattern_list()[4] == "operation timed out"@);
    }
    if contains_seq(t, "network is unreachable"@) {
        assert(network_pattern_list()[5] == "network is unreachable"@);
    }
    if contains_seq(t, "failed to connect"@) {
        assert(network_pattern_list()[6] == "failed to connect"@);
    }
    if contains_seq(t, "unable to access"@) {
        assert(network_pattern_list()[7] == "unable to access"@);
    }
    if contains_seq(t, "ssl certificate"@) {
        assert(network_pattern_list()[8] == "ssl certificate"@);
    }
    if contains_seq(t, "ssl_connect"@) {
        assert(network_pattern_list()[9] == "ssl_connect"@);
    }
    if contains_seq(t, "openssl ssl_connect"@) {
        assert(network_pattern_list()[10] == "openssl ssl_connect"@);
    }
    if contains_seq(t, "curl error"@) {
        assert(network_pattern_list()[11] == "curl error"@);
    }
    if contains_seq(t, "recv failure"@) {
        assert(network_pattern_list()[12] == "recv failure"@);
    }
    if contains_seq(t, "send failure"@) {
        assert(network_pattern_list()[13] == "send failure"@);
    }
    if contains_seq(t, "gnutls"@) {
        assert(network_pattern_list()[14] == "gnutls"@);
    }
    if contains_seq(t, "fatal: repository"@) {
        assert(network_pattern_list()[15] == "fatal: repository"@);
    }
    if contains_seq(t, "error: server certificate"@) {
        assert(network_pattern_list()[16] == "error: server certificate"@);
    }
    if names_network_failure(t) {
        let k = choose|k: int|
            0 <= k < network_pattern_list().len() && contains_seq(t, #[trigger] network_pattern_list()[k]);
        assert(0 <= k < 17);
    }
}

/// Whether a text already in lowercase contains one of the network patterns.
pub fn mentions_network_failure(lower_text: &str) -> (r: bool)
    ensures
        r == names_network_failure(lower_text@),
{
    let lower = to_chars(lower_text);
    let patterns = vec![
        to_string("could not resolve host"),
        to_string("could not connect"),
        to_string("connection refused"),
        to_string("connection timed out"),
        to_string("operation timed out"),
        to_string("network is unreachable"),
        to_string("failed to connect"),
        to_string("unable to access"),
        to_string("ssl certificate"),
        to_string("ssl_connect"),
        to_string("openssl ssl_connect"),
        to_string("curl error"),
        to_string("recv failure"),
        to_string("send failure"),
        to_string("gnutls"),
        to_string("fatal: repository"),
        to_string("error: server certificate"),
    ];
    assert(views(patterns@) =~= network_pattern_list());
    let mut i: usize = 0;
    while i < patterns.len()
        invariant
            i <= patterns@.len(),
            views(patterns@) == network_pattern_list(),
            lower@ == lower_text@,
            forall|j: int| 0 <= j < i ==> !contains_seq(lower@, #[trigger] network_pattern_list()[j]),
        decreases patterns@.len() - i,
    {
        assert(network_pattern_list()[i as int] == patterns@[i as int]@);
        if contains_chars(&lower, &to_chars(patterns[i].as_str())) {
            return true;
        }
        i = i + 1;
    }
    false
}

} // verus!
