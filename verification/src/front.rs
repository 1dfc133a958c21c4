//! The logic of the `front` node link: its configuration, the endpoints it
//! connects to, the network names it understands, the client settings it
//! derives, and the batches in which it queries accounts.
use vstd::prelude::*;

use crate::config::{HD_PATH, LOCALNET, WORD_COUNT};
use crate::text::{
    contains_seq, eq_ignore_ascii_case_seq, replace_all, str_contains, str_eq,
    str_eq_ignore_ascii_case, str_replace, trim_end_char, trim_end_matches_char,
};

verus! {

broadcast use vstd::string::group_string_axioms;

/// Host of the test network.
pub const TESTNET: &'static str = "net.evercloud.dev";

/// Host of the main network.
pub const MAINNET: &'static str = "main.evercloud.dev";

/// Address pattern of an evercloud host; the host is the group `net`.
pub const EVERCLOUD_URL_PATTERN: &'static str = r"^\s*(?:https?://)?(?P<net>\w+\.evercloud\.dev)\s*";

/// Address pattern of a legacy `ton.dev` host; the host is the group `net`.
pub const TON_URL_PATTERN: &'static str = r"^\s*(?:https?://)?(?P<net>\w+\.ton\.dev)\s*";

/// Address pattern of a legacy `everos.dev` host; the host is the group `net`.
pub const EVEROS_URL_PATTERN: &'static str = r"^\s*(?:https?://)?(?P<net>\w+\.everos\.dev)\s*";

/// The collection that account queries read.
pub const ACCOUNTS_COLLECTION: &'static str = "accounts";

/// The fields an account query returns of each account.
pub const ACCOUNT_FIELDS: &'static str = "\n    id\n    acc_type_name\n    balance(format: DEC)\n    last_paid\n    last_trans_lt\n    data\n    boc\n    code_hash\n";

/// Most addresses one account query names after its first one.
pub const ACCOUNTS_PER_QUERY: usize = 50;

// ------------------------------------------------------------------------
// Views
// ------------------------------------------------------------------------

/// The character sequences of a sequence of strings.
pub open spec fn strings_view(v: Seq<String>) -> Seq<Seq<char>> {
    v.map_values(|s: String| s@)
}

/// The character sequence of an optional string.
pub open spec fn opt_view(o: Option<String>) -> Option<Seq<char>> {
    match o {
        Some(s) => Some(s@),
        None => None,
    }
}

// ------------------------------------------------------------------------
// Configuration
// ------------------------------------------------------------------------

/// Configuration of the front-link plugin.
#[derive(Clone, PartialEq)]
pub struct FrontConfig {
    pub url: String,
    pub wc: i32,
    pub retries: u8,
    pub timeout: u32,
    pub message_processing_timeout: u32,
    pub out_of_sync_threshold: u32,
    pub verbose: bool,
    pub lifetime: u32,
    /// SDK authentication: project identifier.
    pub project_id: Option<String>,
    /// SDK authentication: access key.
    pub access_key: Option<String>,
    pub endpoints: Vec<String>,
}

/// Default node address: the test network.
pub fn default_url() -> (res: String)
    ensures
        res@ == TESTNET@,
{
    String::from_str(TESTNET)
}

/// Default workchain.
pub fn default_wc() -> (res: i32)
    ensures
        res == 0,
{
    0
}

/// Default number of message retries.
pub fn default_retries() -> (res: u8)
    ensures
        res == 5,
{
    5
}

/// Default timeout, in milliseconds.
pub fn default_timeout() -> (res: u32)
    ensures
        res == 40000,
{
    40000
}

/// Default out-of-sync threshold, in seconds.
pub fn default_out_of_sync() -> (res: u32)
    ensures
        res == 15,
{
    15
}

/// Default of the boolean switches.
pub fn default_false() -> (res: bool)
    ensures
        res == false,
{
    false
}

/// Default message lifetime, in seconds.
pub fn default_lifetime() -> (res: u32)
    ensures
        res == 60,
{
    60
}

/// Default endpoint list: none.
pub fn default_endpoints() -> (res: Vec<String>)
    ensures
        res@.len() == 0,
{
    Vec::new()
}

// ------------------------------------------------------------------------
// Server endpoints
// ------------------------------------------------------------------------

/// The endpoints a configuration names: its endpoint list, or its url alone
/// when the list is empty.
pub open spec fn endpoint_base(url: Seq<char>, endpoints: Seq<Seq<char>>) -> Seq<Seq<char>> {
    if endpoints.len() == 0 {
        seq![url]
    } else {
        endpoints
    }
}

/// An endpoint without its trailing slashes, followed by `/` and the project
/// identifier when there is one.
pub open spec fn decorated_endpoint(e: Seq<char>, project_id: Option<Seq<char>>) -> Seq<char> {
    match project_id {
        Some(p) => trim_end_char(e, '/') + seq!['/'] + p,
        None => trim_end_char(e, '/'),
    }
}

/// The server endpoints of a configuration.
pub open spec fn server_endpoints(
    url: Seq<char>,
    endpoints: Seq<Seq<char>>,
    project_id: Option<Seq<char>>,
) -> Seq<Seq<char>> {
    endpoint_base(url, endpoints).map_values(|e: Seq<char>| decorated_endpoint(e, project_id))
}

/// The server endpoints of a configuration: each of its endpoints (or its url
/// when it lists none), trailing slashes trimmed, with the project identifier
/// appended as a last path component when the configuration has one.
pub fn get_server_endpoints(config: &FrontConfig) -> (res: Vec<String>)
    ensures
        strings_view(res@) == server_endpoints(
            config.url@,
            strings_view(config.endpoints@),
            opt_view(config.project_id),
        ),
{
    let ghost base = endpoint_base(config.url@, strings_view(config.endpoints@));
    let n = if config.endpoints.len() == 0 {
        1
    } else {
        config.endpoints.len()
    };
    let mut res: Vec<String> = Vec::new();
    let mut i: usize = 0;
    while i < n
        invariant
            base == endpoint_base(config.url@, strings_view(config.endpoints@)),
            n == base.len(),
            i <= n,
            res@.len() == i,
            forall|j: int|
                0 <= j < i ==> #[trigger] res@[j]@ == decorated_endpoint(
                    base[j],
                    opt_view(config.project_id),
                ),
        decreases n - i,
    {
        let e: &str = if config.endpoints.len() == 0 {
            config.url.as_str()
        } else {
            config.endpoints[i].as_str()
        };
        assert(e@ == base[i as int]);
        let mut end = trim_end_matches_char(e, '/');
        match &config.project_id {
            Some(p) => {
                end.append("/");
                proof {
                    reveal_strlit("/");
                }
                end.append(p.as_str());
            },
            None => {},
        }
        res.push(end);
        i = i + 1;
    }
    assert(strings_view(res@) =~= server_endpoints(
        config.url@,
        strings_view(config.endpoints@),
        opt_view(config.project_id),
    ));
    res
}

// ------------------------------------------------------------------------
// Known networks
// ------------------------------------------------------------------------

/// Endpoints of the main network.
pub open spec fn main_endpoints_view() -> Seq<Seq<char>> {
    seq!["https://mainnet.evercloud.dev"@]
}

/// Endpoints of the test network.
pub open spec fn net_endpoints_view() -> Seq<Seq<char>> {
    seq!["https://devnet.evercloud.dev"@]
}

/// Endpoints of a local node.
pub open spec fn se_endpoints_view() -> Seq<Seq<char>> {
    seq!["http://0.0.0.0"@, "http://127.0.0.1"@, "http://localhost"@]
}

/// The known networks with their endpoints, in increasing order of name.
pub open spec fn default_networks() -> Seq<(Seq<char>, Seq<Seq<char>>)> {
    seq![
        (LOCALNET@, se_endpoints_view()),
        (MAINNET@, main_endpoints_view()),
        (TESTNET@, net_endpoints_view()),
    ]
}

/// The names and endpoint lists of a table of networks.
pub open spec fn network_table_view(t: Seq<(String, Vec<String>)>) -> Seq<(Seq<char>, Seq<Seq<char>>)> {
    t.map_values(|e: (String, Vec<String>)| (e.0@, strings_view(e.1@)))
}

/// A name is that of a known network.
pub open spec fn is_default_network(n: Seq<char>) -> bool {
    n == MAINNET@ || n == TESTNET@ || n == LOCALNET@
}

/// Endpoints of the main network.
pub fn main_endpoints() -> (res: Vec<String>)
    ensures
        strings_view(res@) == main_endpoints_view(),
{
    let mut res: Vec<String> = Vec::new();
    res.push(String::from_str("https://mainnet.evercloud.dev"));
    assert(strings_view(res@) =~= main_endpoints_view());
    res
}

/// Endpoints of the test network.
pub fn net_endpoints() -> (res: Vec<String>)
    ensures
        strings_view(res@) == net_endpoints_view(),
{
    let mut res: Vec<String> = Vec::new();
    res.push(String::from_str("https://devnet.evercloud.dev"));
    assert(strings_view(res@) =~= net_endpoints_view());
    res
}

/// Endpoints of a local node.
pub fn se_endpoints() -> (res: Vec<String>)
    ensures
        strings_view(res@) == se_endpoints_view(),
{
    let mut res: Vec<String> = Vec::new();
    res.push(String::from_str("http://0.0.0.0"));
    res.push(String::from_str("http://127.0.0.1"));
    res.push(String::from_str("http://localhost"));
    assert(strings_view(res@) =~= se_endpoints_view());
    res
}

/// The known networks, each with its endpoints, ordered by name.
pub fn default_map() -> (res: Vec<(String, Vec<String>)>)
    ensures
        network_table_view(res@) == default_networks(),
{
    let mut res: Vec<(String, Vec<String>)> = Vec::new();
    res.push((String::from_str(LOCALNET), se_endpoints()));
    res.push((String::from_str(MAINNET), main_endpoints()));
    res.push((String::from_str(TESTNET), net_endpoints()));
    assert(network_table_view(res@) =~= default_networks());
    res
}

/// Whether `name` is a key of [`default_map`].
fn default_map_contains(name: &str) -> (res: bool)
    ensures
        res == is_default_network(name@),
{
    let table = default_map();
    let ghost names = seq![LOCALNET@, MAINNET@, TESTNET@];
    assert(forall|j: int| 0 <= j < 3 ==> #[trigger] default_networks()[j].0 == names[j]);
    assert(table@.len() == network_table_view(table@).len());
    let mut i: usize = 0;
    while i < table.len()
        invariant
            network_table_view(table@) == default_networks(),
            names == seq![LOCALNET@, MAINNET@, TESTNET@],
            table@.len() == 3,
            forall|j: int| 0 <= j < 3 ==> #[trigger] default_networks()[j].0 == names[j],
            i <= table@.len(),
            forall|j: int| 0 <= j < i ==> name@ != default_networks()[j].0,
        decreases table@.len() - i,
    {
        assert(network_table_view(table@)[i as int].0 == table@[i as int].0@);
        if str_eq(table[i].0.as_str(), name) {
            assert(names[i as int] == name@);
            return true;
        }
        i = i + 1;
    }
    assert(name@ != names[0] && name@ != names[1] && name@ != names[2]);
    false
}

// ------------------------------------------------------------------------
// Network names
// ------------------------------------------------------------------------

/// What the group named `group` of `pattern` captures in the first match of
/// `pattern` in `text`; `None` when `pattern` does not compile, does not match,
/// or the match has no such group.
pub uninterp spec fn regex_capture(pattern: Seq<char>, group: Seq<char>, text: Seq<char>) -> Option<
    Seq<char>,
>;

/// The group of the address patterns that holds the host.
pub const NET_GROUP: &'static str = "net";

/// A character that `\w` matches and that is ASCII: a letter, a digit or `_`.
pub open spec fn is_ascii_word_char(c: char) -> bool {
    ('a' <= c && c <= 'z') || ('A' <= c && c <= 'Z') || ('0' <= c && c <= '9') || c == '_'
}

/// `text` is one or more ASCII word characters followed by `suffix`.
pub open spec fn is_word_host(text: Seq<char>, suffix: Seq<char>) -> bool {
    &&& text.len() > suffix.len()
    &&& text.subrange(text.len() - suffix.len(), text.len() as int) == suffix
    &&& forall|i: int| 0 <= i < text.len() - suffix.len() ==> is_ascii_word_char(#[trigger] text[i])
}

/// Calls `regex::Regex::new(pattern)`, then `Regex::captures(text)` and, of the
/// captures, the group named `group` (`Captures::name`, `Match::as_str`).
/// Trusted: the result is the capture of that group in the first match, as
/// named by [`regex_capture`]. Of the three address patterns it also states
/// two facts of the documented regex syntax (`^` anchors at the start, `\s*` and
/// the optional scheme may match nothing, `\w+` matches ASCII word characters,
/// `\.` and letters match themselves): the evercloud pattern captures the whole
/// of a text made of word characters and `.evercloud.dev`, and a pattern finds
/// no match in a text that lacks its literal domain suffix. Nothing more is
/// stated of the regex engine.
#[verifier::external_body]
fn capture_group(pattern: &str, group: &str, text: &str) -> (res: Option<String>)
    ensures
        opt_view(res) == regex_capture(pattern@, group@, text@),
        pattern@ == EVERCLOUD_URL_PATTERN@ && group@ == NET_GROUP@ && is_word_host(
            text@,
            ".evercloud.dev"@,
        ) ==> opt_view(res) == Some(text@),
        pattern@ == EVERCLOUD_URL_PATTERN@ && !contains_seq(text@, ".evercloud.dev"@) ==> res is None,
        pattern@ == TON_URL_PATTERN@ && !contains_seq(text@, ".ton.dev"@) ==> res is None,
        pattern@ == EVEROS_URL_PATTERN@ && !contains_seq(text@, ".everos.dev"@) ==> res is None,
{
    let re = match regex::Regex::new(pattern) {
        Ok(re) => re,
        Err(_) => return None,
    };
    match re.captures(text) {
        Some(caps) => caps.name(group).map(|m| m.as_str().to_string()),
        None => None,
    }
}

/// A captured host with legacy domains renamed to `evercloud`.
pub open spec fn normalized_net(cap: Seq<char>) -> Seq<char> {
    replace_all(replace_all(cap, "ton"@, "evercloud"@), "everos"@, "evercloud"@)
}

/// The capture that counts: the one of the last pattern that matched.
pub open spec fn last_capture(
    evercloud: Option<Seq<char>>,
    ton: Option<Seq<char>>,
    everos: Option<Seq<char>>,
) -> Option<Seq<char>> {
    if everos is Some {
        everos
    } else if ton is Some {
        ton
    } else {
        evercloud
    }
}

/// The network name of an address, given what each of the three address
/// patterns captured in it.
pub open spec fn net_name(
    url: Seq<char>,
    evercloud: Option<Seq<char>>,
    ton: Option<Seq<char>>,
    everos: Option<Seq<char>>,
) -> Option<Seq<char>> {
    let net = match last_capture(evercloud, ton, everos) {
        Some(c) => Some(normalized_net(c)),
        None => None,
    };
    if net is Some && is_default_network(net->0) {
        net
    } else if url == "main"@ {
        Some(MAINNET@)
    } else if url == "dev"@ || url == "devnet"@ {
        Some(TESTNET@)
    } else if contains_seq(url, "127.0.0.1"@) || contains_seq(url, "0.0.0.0"@) || contains_seq(
        url,
        "localhost"@,
    ) {
        Some(LOCALNET@)
    } else {
        None
    }
}

/// The network name of `url`, as [`resolve_net_name`] computes it from the
/// captures of the three address patterns.
pub open spec fn resolved_net_name(url: Seq<char>) -> Option<Seq<char>> {
    net_name(
        url,
        regex_capture(EVERCLOUD_URL_PATTERN@, NET_GROUP@, url),
        regex_capture(TON_URL_PATTERN@, NET_GROUP@, url),
        regex_capture(EVEROS_URL_PATTERN@, NET_GROUP@, url),
    )
}

/// The network name of `url`, given what the evercloud, ton and everos address
/// patterns captured in it: the last capture, with `ton` and `everos` renamed to
/// `evercloud`, when it is a known network; else `main`, `dev`/`devnet` and local
/// addresses by name; else none.
pub fn net_name_from_captures(
    url: &str,
    evercloud: Option<String>,
    ton: Option<String>,
    everos: Option<String>,
) -> (res: Option<String>)
    ensures
        opt_view(res) == net_name(url@, opt_view(evercloud), opt_view(ton), opt_view(everos)),
{
    let cap = if everos.is_some() {
        everos
    } else if ton.is_some() {
        ton
    } else {
        evercloud
    };
    proof {
        reveal_strlit("ton");
        reveal_strlit("everos");
    }
    let net: Option<String> = match &cap {
        Some(c) => {
            let renamed = str_replace(c.as_str(), "ton", "evercloud");
            Some(str_replace(renamed.as_str(), "everos", "evercloud"))
        },
        None => None,
    };
    if let Some(n) = &net {
        if default_map_contains(n.as_str()) {
            return net;
        }
    }
    if str_eq(url, "main") {
        return Some(String::from_str(MAINNET));
    }
    if str_eq(url, "dev") || str_eq(url, "devnet") {
        return Some(String::from_str(TESTNET));
    }
    if str_contains(url, "127.0.0.1") || str_contains(url, "0.0.0.0") || str_contains(
        url,
        "localhost",
    ) {
        return Some(String::from_str(LOCALNET));
    }
    None
}

/// The known network that `url` names, if any (see [`net_name_from_captures`]).
///
/// A resolved name is always a known network, and a known network's name
/// resolves to itself; so resolving a resolved name gives it back.
pub fn resolve_net_name(url: &str) -> (res: Option<String>)
    ensures
        opt_view(res) == resolved_net_name(url@),
        res matches Some(n) ==> is_default_network(n@),
        is_default_network(url@) ==> opt_view(res) == Some(url@),
        !contains_seq(url@, ".evercloud.dev"@) && !contains_seq(url@, ".ton.dev"@) && !contains_seq(
            url@,
            ".everos.dev"@,
        ) ==> opt_view(res) == net_name(url@, None, None, None),
{
    let evercloud = capture_group(EVERCLOUD_URL_PATTERN, NET_GROUP, url);
    let ton = capture_group(TON_URL_PATTERN, NET_GROUP, url);
    let everos = capture_group(EVEROS_URL_PATTERN, NET_GROUP, url);
    proof {
        if is_default_network(url@) {
            lemma_known_name_shape(url@);
            lemma_known_name_resolves_to_itself(
                url@,
                opt_view(evercloud),
                opt_view(ton),
                opt_view(everos),
            );
        }
    }
    let res = net_name_from_captures(url, evercloud, ton, everos);
    proof {
        lemma_resolved_name_is_known(url@, opt_view(evercloud), opt_view(ton), opt_view(everos));
    }
    res
}

// ------------------------------------------------------------------------
// Client settings
// ------------------------------------------------------------------------

/// ABI settings of an SDK client.
pub struct AbiSettings {
    pub workchain: i32,
    /// Milliseconds.
    pub message_expiration_timeout: u32,
}

/// Crypto settings of an SDK client (English mnemonic dictionary).
pub struct CryptoSettings {
    pub mnemonic_word_count: u8,
    pub hdkey_derivation_path: String,
}

/// Network settings of an SDK client.
pub struct NetworkSettings {
    pub server_address: String,
    pub sending_endpoint_count: u8,
    pub endpoints: Option<Vec<String>>,
    pub message_retries_count: i8,
    /// Milliseconds.
    pub message_processing_timeout: u32,
    /// Milliseconds.
    pub wait_for_timeout: u32,
    /// Milliseconds.
    pub out_of_sync_threshold: u32,
    pub access_key: Option<String>,
}

/// The settings of an SDK client, derived from a front-link configuration.
pub struct ClientSettings {
    pub abi: AbiSettings,
    pub crypto: CryptoSettings,
    pub network: NetworkSettings,
}

/// Message processing timeout of every client, in milliseconds.
pub const MESSAGE_PROCESSING_TIMEOUT: u32 = 30000;

/// A retry count reinterpreted as a signed byte (two's complement).
pub open spec fn retries_as_i8(r: u8) -> i8 {
    if r < 128 {
        r as i8
    } else {
        (r - 256) as i8
    }
}

/// How many endpoints a message is sent to: one for a local node, else all the
/// server endpoints (their number taken modulo 256).
pub open spec fn sending_endpoint_count(resolved: Option<Seq<char>>, url: Seq<char>, endpoints: nat) -> u8 {
    let name = match resolved {
        Some(n) => n,
        None => url,
    };
    if name == LOCALNET@ {
        1
    } else {
        (endpoints % 256) as u8
    }
}

/// `s` are the client settings of `c`, where `resolved` is the network name
/// that the configured url resolves to.
pub open spec fn settings_of(s: ClientSettings, c: FrontConfig, resolved: Option<Seq<char>>) -> bool {
    let eps = server_endpoints(c.url@, strings_view(c.endpoints@), opt_view(c.project_id));
    &&& s.abi.workchain == c.wc
    &&& s.abi.message_expiration_timeout == c.lifetime * 1000
    &&& s.crypto.mnemonic_word_count == WORD_COUNT
    &&& s.crypto.hdkey_derivation_path@ == HD_PATH@
    &&& s.network.server_address@ == c.url@
    &&& s.network.sending_endpoint_count == sending_endpoint_count(resolved, c.url@, eps.len())
    &&& (if eps.len() == 0 {
        s.network.endpoints is None
    } else {
        s.network.endpoints matches Some(v) && strings_view(v@) == eps
    })
    &&& s.network.message_retries_count == retries_as_i8(c.retries)
    &&& s.network.message_processing_timeout == MESSAGE_PROCESSING_TIMEOUT
    &&& s.network.wait_for_timeout == c.timeout
    &&& s.network.out_of_sync_threshold == c.out_of_sync_threshold * 1000
    &&& opt_view(s.network.access_key) == opt_view(c.access_key)
}

/// How many endpoints a message of `config` is sent to, given the network name
/// its url resolves to: one for a local node, else the number of its server
/// endpoints taken modulo 256 (a cast to `u8`).
pub fn sending_endpoints_for(config: &FrontConfig, resolved: Option<String>) -> (res: u8)
    ensures
        res == sending_endpoint_count(
            opt_view(resolved),
            config.url@,
            server_endpoints(
                config.url@,
                strings_view(config.endpoints@),
                opt_view(config.project_id),
            ).len(),
        ),
{
    let endpoints = get_server_endpoints(config);
    assert(strings_view(endpoints@).len() == endpoints@.len());
    let name: String = match resolved {
        Some(n) => n,
        None => config.url.clone(),
    };
    if str_eq(name.as_str(), LOCALNET) {
        1
    } else {
        (endpoints.len() % 256) as u8
    }
}

/// How many endpoints a message of `config` is sent to: its url resolved with
/// [`resolve_net_name`], then [`sending_endpoints_for`].
pub fn sending_endpoints(config: &FrontConfig) -> (res: u8)
    ensures
        res == sending_endpoint_count(
            resolved_net_name(config.url@),
            config.url@,
            server_endpoints(
                config.url@,
                strings_view(config.endpoints@),
                opt_view(config.project_id),
            ).len(),
        ),
{
    let resolved = resolve_net_name(config.url.as_str());
    sending_endpoints_for(config, resolved)
}

/// The client settings of `config`, given the network name its url resolves to.
pub fn client_settings_for(config: &FrontConfig, resolved: Option<String>) -> (res: ClientSettings)
    requires
        config.lifetime * 1000 <= u32::MAX,
        config.out_of_sync_threshold * 1000 <= u32::MAX,
    ensures
        settings_of(res, *config, opt_view(resolved)),
{
    let endpoints = get_server_endpoints(config);
    let count = sending_endpoints_for(config, resolved);
    let retries: i8 = if config.retries < 128 {
        config.retries as i8
    } else {
        (config.retries as i16 - 256) as i8
    };
    let endpoint_list = if endpoints.len() == 0 {
        None
    } else {
        Some(endpoints)
    };
    let access_key = match &config.access_key {
        Some(k) => Some(k.clone()),
        None => None,
    };
    ClientSettings {
        abi: AbiSettings {
            workchain: config.wc,
            message_expiration_timeout: config.lifetime * 1000,
        },
        crypto: CryptoSettings {
            mnemonic_word_count: WORD_COUNT,
            hdkey_derivation_path: String::from_str(HD_PATH),
        },
        network: NetworkSettings {
            server_address: config.url.clone(),
            sending_endpoint_count: count,
            endpoints: endpoint_list,
            message_retries_count: retries,
            message_processing_timeout: MESSAGE_PROCESSING_TIMEOUT,
            wait_for_timeout: config.timeout,
            out_of_sync_threshold: config.out_of_sync_threshold * 1000,
            access_key,
        },
    }
}

/// The client settings of `config`: its url resolved with [`resolve_net_name`],
/// then [`client_settings_for`].
pub fn client_settings(config: &FrontConfig) -> (res: ClientSettings)
    requires
        config.lifetime * 1000 <= u32::MAX,
        config.out_of_sync_threshold * 1000 <= u32::MAX,
    ensures
        settings_of(res, *config, resolved_net_name(config.url@)),
{
    let resolved = resolve_net_name(config.url.as_str());
    client_settings_for(config, resolved)
}

// ------------------------------------------------------------------------
// Logging
// ------------------------------------------------------------------------

/// The most verbose level that is logged.
#[derive(PartialEq, Eq, Structural, Clone, Copy, Debug)]
pub enum LevelFilter {
    Off,
    Error,
    Warn,
    Info,
    Debug,
    Trace,
}

/// The level of one log record.
#[derive(PartialEq, Eq, Structural, Clone, Copy, Debug)]
pub enum Level {
    Error,
    Warn,
    Info,
    Debug,
    Trace,
}

/// The logging level set by the `RUST_LOG` setting: `debug` or `trace` (in any
/// ASCII case) select those levels, any other value selects `Debug`, and no
/// setting selects `Warn`.
pub open spec fn level_for_setting(setting: Option<Seq<char>>) -> LevelFilter {
    match setting {
        None => LevelFilter::Warn,
        Some(v) => if eq_ignore_ascii_case_seq(v, "debug"@) {
            LevelFilter::Debug
        } else if eq_ignore_ascii_case_seq(v, "trace"@) {
            LevelFilter::Trace
        } else {
            LevelFilter::Debug
        },
    }
}

/// The logging level for the value of the `RUST_LOG` setting, if it is set.
pub fn debug_level(rust_log: Option<&str>) -> (res: LevelFilter)
    ensures
        res == level_for_setting(
            match rust_log {
                Some(v) => Some(v@),
                None => None,
            },
        ),
{
    match rust_log {
        Some(v) => {
            if str_eq_ignore_ascii_case(v, "debug") {
                LevelFilter::Debug
            } else if str_eq_ignore_ascii_case(v, "trace") {
                LevelFilter::Trace
            } else {
                LevelFilter::Debug
            }
        },
        None => LevelFilter::Warn,
    }
}

/// Whether a record of this level goes to standard error (errors and warnings)
/// rather than standard output.
pub fn logs_to_stderr(level: Level) -> (res: bool)
    ensures
        res == (level == Level::Error || level == Level::Warn),
{
    match level {
        Level::Error | Level::Warn => true,
        _ => false,
    }
}

// ------------------------------------------------------------------------
// Account queries
// ------------------------------------------------------------------------

/// A filter on account identifiers: one identifier, or one identifier or
/// (`OR`) a further filter.
pub enum AccountFilter {
    IdEq(String),
    IdEqOr(String, Box<AccountFilter>),
}

impl AccountFilter {
    /// The identifiers the filter names, outermost first.
    pub open spec fn ids(&self) -> Seq<Seq<char>>
        decreases self,
    {
        match self {
            AccountFilter::IdEq(x) => seq![x@],
            AccountFilter::IdEqOr(x, rest) => seq![x@] + rest.ids(),
        }
    }
}

/// One account query: a filter and the most accounts it returns.
pub struct AccountBatch {
    pub filter: AccountFilter,
    pub limit: u32,
}

/// How many addresses after its first one a query starting at `it` names.
pub open spec fn batch_extra(n: int, it: int) -> int {
    if n - it < ACCOUNTS_PER_QUERY {
        n - it
    } else {
        ACCOUNTS_PER_QUERY as int
    }
}

/// The queries for `n` addresses from position `it` on, as (start, extra)
/// pairs: each names the address at its start and the `extra` addresses from
/// its start on; the next one starts `extra + 1` positions further.
pub open spec fn batch_plan(n: int, it: int) -> Seq<(int, int)>
    decreases (if it < n {
        n - it
    } else {
        0
    }),
{
    if it < 0 || it >= n {
        seq![]
    } else {
        seq![(it, batch_extra(n, it))] + batch_plan(n, it + 1 + batch_extra(n, it))
    }
}

/// The identifiers of the filter of the query (start `s`, extra `m`), outermost
/// first: the addresses `s + m - 1` down to `s`, then the address at `s` again.
pub open spec fn batch_filter_ids(a: Seq<Seq<char>>, s: int, m: int) -> Seq<Seq<char>>
    decreases m,
{
    if m <= 0 {
        seq![a[s]]
    } else {
        seq![a[s + m - 1]] + batch_filter_ids(a, s, m - 1)
    }
}

/// `b` is the query (start `s`, extra `m`) over the addresses `a`.
pub open spec fn is_batch(b: AccountBatch, a: Seq<Seq<char>>, s: int, m: int) -> bool {
    b.limit == m + 1 && b.filter.ids() == batch_filter_ids(a, s, m)
}

/// The filter of the query that starts at `start` and names `extra` further
/// addresses.
fn batch_filter(addresses: &Vec<String>, start: usize, extra: usize) -> (res: AccountFilter)
    requires
        start + extra <= addresses@.len(),
        start < addresses@.len(),
    ensures
        res.ids() == batch_filter_ids(strings_view(addresses@), start as int, extra as int),
{
    let ghost a = strings_view(addresses@);
    let len = addresses.len();
    let mut filter = AccountFilter::IdEq(addresses[start].clone());
    let mut k: usize = 0;
    while k < extra
        invariant
            start + extra <= addresses@.len(),
            start < addresses@.len(),
            len == addresses@.len(),
            a == strings_view(addresses@),
            k <= extra,
            filter.ids() == batch_filter_ids(a, start as int, k as int),
        decreases extra - k,
    {
        let id = addresses[start + k].clone();
        assert(id@ == a[start + k]);
        filter = AccountFilter::IdEqOr(id, Box::new(filter));
        k = k + 1;
    }
    filter
}

/// The account queries for `addresses`: from the first address on, each query
/// names the address at its start and the next (at most fifty) addresses from
/// its start on, and returns at most that many accounts; the next query starts
/// one position after the last address named.
pub fn plan_account_batches(addresses: &Vec<String>) -> (res: Vec<AccountBatch>)
    ensures
        res@.len() == batch_plan(addresses@.len() as int, 0).len(),
        forall|k: int|
            0 <= k < res@.len() ==> is_batch(
                #[trigger] res@[k],
                strings_view(addresses@),
                batch_plan(addresses@.len() as int, 0)[k].0,
                batch_plan(addresses@.len() as int, 0)[k].1,
            ),
{
    let n = addresses.len();
    let ghost a = strings_view(addresses@);
    let ghost full = batch_plan(n as int, 0);
    let ghost mut done: Seq<(int, int)> = seq![];
    let mut res: Vec<AccountBatch> = Vec::new();
    let mut it: usize = 0;
    assert(done + batch_plan(n as int, 0) =~= full);
    while it < n
        invariant
            n == addresses@.len(),
            a == strings_view(addresses@),
            full == batch_plan(n as int, 0),
            done + batch_plan(n as int, it as int) == full,
            res@.len() == done.len(),
            forall|k: int| 0 <= k < res@.len() ==> is_batch(#[trigger] res@[k], a, done[k].0, done[k].1),
        decreases n - it,
    {
        let extra: usize = if n - it < ACCOUNTS_PER_QUERY {
            n - it
        } else {
            ACCOUNTS_PER_QUERY
        };
        let filter = batch_filter(addresses, it, extra);
        let cnt: usize = extra + 1;
        res.push(AccountBatch { filter, limit: cnt as u32 });
        let ghost step = (it as int, extra as int);
        let next: usize = if cnt >= n - it {
            n
        } else {
            it + cnt
        };
        proof {
            assert(batch_plan(n as int, it as int) == seq![step] + batch_plan(
                n as int,
                it + 1 + extra,
            ));
            assert(batch_plan(n as int, next as int) == batch_plan(n as int, it + 1 + extra));
            assert((done + seq![step]) + batch_plan(n as int, next as int) =~= done
                + batch_plan(n as int, it as int));
            done = done + seq![step];
        }
        it = next;
    }
    assert(done =~= full);
    res
}

// ------------------------------------------------------------------------
// Laws
// ------------------------------------------------------------------------

/// A network name is known exactly when it is a key of the table of known
/// networks that [`default_map`] returns.
pub proof fn lemma_known_network_is_table_key(n: Seq<char>)
    ensures
        is_default_network(n) <==> exists|i: int|
            0 <= i < default_networks().len() && #[trigger] default_networks()[i].0 == n,
{
    if is_default_network(n) {
        if n == LOCALNET@ {
            assert(default_networks()[0].0 == n);
        } else if n == MAINNET@ {
            assert(default_networks()[1].0 == n);
        } else {
            assert(default_networks()[2].0 == n);
        }
    }
}

/// The table of known networks names each network once, in increasing order
/// of name.
pub proof fn lemma_default_networks_sorted()
    ensures
        default_networks().len() == 3,
        default_networks()[0].0 != default_networks()[1].0,
        default_networks()[1].0 != default_networks()[2].0,
        default_networks()[0].0 != default_networks()[2].0,
        default_networks()[0].0[0] < default_networks()[1].0[0],
        default_networks()[1].0[0] < default_networks()[2].0[0],
{
    reveal_strlit("http://127.0.0.1/");
    reveal_strlit("main.evercloud.dev");
    reveal_strlit("net.evercloud.dev");
    assert(LOCALNET@[0] == 'h');
    assert(MAINNET@[0] == 'm');
    assert(TESTNET@[0] == 'n');
}

/// Whatever the address patterns capture, a resolved network name is always
/// one of the known networks.
pub proof fn lemma_resolved_name_is_known(
    url: Seq<char>,
    evercloud: Option<Seq<char>>,
    ton: Option<Seq<char>>,
    everos: Option<Seq<char>>,
)
    ensures
        net_name(url, evercloud, ton, everos) matches Some(n) ==> is_default_network(n),
{
}

/// A configuration always yields at least one server endpoint: one for each
/// configured endpoint, or the url alone when none is configured.
pub proof fn lemma_server_endpoints_count(
    url: Seq<char>,
    endpoints: Seq<Seq<char>>,
    project_id: Option<Seq<char>>,
)
    ensures
        server_endpoints(url, endpoints, project_id).len() == (if endpoints.len() == 0 {
            1
        } else {
            endpoints.len()
        }),
        server_endpoints(url, endpoints, project_id).len() > 0,
{
}

/// Without a project identifier, no server endpoint ends with a slash.
pub proof fn lemma_server_endpoints_untrailed(url: Seq<char>, endpoints: Seq<Seq<char>>)
    ensures
        forall|i: int|
            0 <= i < server_endpoints(url, endpoints, None).len() && #[trigger] server_endpoints(
                url,
                endpoints,
                None,
            )[i].len() > 0 ==> server_endpoints(url, endpoints, None)[i].last() != '/',
{
    assert forall|i: int|
        0 <= i < server_endpoints(url, endpoints, None).len() && #[trigger] server_endpoints(
            url,
            endpoints,
            None,
        )[i].len() > 0 implies server_endpoints(url, endpoints, None)[i].last() != '/' by {
        crate::text::lemma_trim_end_char_no_trailing(endpoint_base(url, endpoints)[i], '/');
    }
}

/// Every query's limit is the number of identifiers its filter names.
pub proof fn lemma_batch_limit_counts_ids(a: Seq<Seq<char>>, s: int, m: int)
    requires
        m >= 0,
    ensures
        batch_filter_ids(a, s, m).len() == m + 1,
    decreases m,
{
    if m > 0 {
        lemma_batch_limit_counts_ids(a, s, m - 1);
    }
}

/// Every identifier a query names is one of the addresses it covers: the
/// address at its start or one of the next `m - 1`.
pub proof fn lemma_batch_ids_from_addresses(a: Seq<Seq<char>>, s: int, m: int)
    requires
        m >= 0,
    ensures
        forall|k: int|
            0 <= k < batch_filter_ids(a, s, m).len() ==> exists|j: int|
                s <= j && (j < s + m || j == s) && #[trigger] batch_filter_ids(a, s, m)[k] == a[j],
    decreases m,
{
    lemma_batch_limit_counts_ids(a, s, m);
    if m > 0 {
        lemma_batch_ids_from_addresses(a, s, m - 1);
        assert forall|k: int| 0 <= k < batch_filter_ids(a, s, m).len() implies exists|j: int|
            s <= j && (j < s + m || j == s) && #[trigger] batch_filter_ids(a, s, m)[k] == a[j] by {
            if k == 0 {
                assert(batch_filter_ids(a, s, m)[k] == a[s + m - 1]);
            } else {
                assert(batch_filter_ids(a, s, m)[k] == batch_filter_ids(a, s, m - 1)[k - 1]);
            }
        }
    }
}

/// Every query starts at an address, names at least one and at most fifty
/// further addresses, and stays within the address list; queries follow one
/// another in increasing order of start.
pub proof fn lemma_batch_plan_bounds(n: int, it: int)
    requires
        0 <= it,
    ensures
        forall|k: int|
            0 <= k < batch_plan(n, it).len() ==> {
                let b = #[trigger] batch_plan(n, it)[k];
                &&& it <= b.0 < n
                &&& 1 <= b.1 <= ACCOUNTS_PER_QUERY
                &&& b.0 + b.1 <= n
            },
        forall|k: int|
            0 <= k < batch_plan(n, it).len() - 1 ==> #[trigger] batch_plan(n, it)[k].0 + batch_plan(
                n,
                it,
            )[k].1 + 1 == batch_plan(n, it)[k + 1].0,
    decreases (if it < n {
        n - it
    } else {
        0
    }),
{
    if it < n {
        let e = batch_extra(n, it);
        lemma_batch_plan_bounds(n, it + 1 + e);
        let rest = batch_plan(n, it + 1 + e);
        assert(batch_plan(n, it) == seq![(it, e)] + rest);
        if rest.len() > 0 {
            assert(rest[0].0 == it + 1 + e);
        }
        assert forall|k: int| 0 <= k < batch_plan(n, it).len() - 1 implies #[trigger] batch_plan(
            n,
            it,
        )[k].0 + batch_plan(n, it)[k].1 + 1 == batch_plan(n, it)[k + 1].0 by {
            if k > 0 {
                assert(batch_plan(n, it)[k] == rest[k - 1]);
                assert(batch_plan(n, it)[k + 1] == rest[k]);
            }
        }
    }
}

/// At most fifty addresses are queried at once, in a single query that names
/// every one of them; no addresses need no query.
pub proof fn lemma_few_addresses_one_batch(a: Seq<Seq<char>>)
    requires
        a.len() <= ACCOUNTS_PER_QUERY,
    ensures
        a.len() == 0 ==> batch_plan(0, 0).len() == 0,
        a.len() > 0 ==> batch_plan(a.len() as int, 0) == seq![(0int, a.len() as int)],
        forall|j: int|
            0 <= j < a.len() ==> batch_filter_ids(a, 0, a.len() as int).contains(#[trigger] a[j]),
{
    let n = a.len() as int;
    if n > 0 {
        assert(batch_plan(n, 1 + n) == Seq::<(int, int)>::empty());
        assert(batch_plan(n, 0) =~= seq![(0int, n)]);
    }
    assert forall|j: int| 0 <= j < a.len() implies batch_filter_ids(a, 0, n).contains(
        #[trigger] a[j],
    ) by {
        lemma_batch_filter_ids_contains(a, 0, n, j);
    }
}

/// The filter of the query (start `s`, extra `m`) names every address from `s`
/// up to `s + m - 1`.
proof fn lemma_batch_filter_ids_contains(a: Seq<Seq<char>>, s: int, m: int, j: int)
    requires
        s <= j < s + m,
    ensures
        batch_filter_ids(a, s, m).contains(a[j]),
    decreases m,
{
    if j == s + m - 1 {
        assert(batch_filter_ids(a, s, m)[0] == a[j]);
    } else {
        lemma_batch_filter_ids_contains(a, s, m - 1, j);
        let k = choose|k: int|
            0 <= k < batch_filter_ids(a, s, m - 1).len() && #[trigger] batch_filter_ids(a, s, m - 1)[k]
                == a[j];
        assert(batch_filter_ids(a, s, m)[k + 1] == a[j]);
    }
}

/// The characters of the known network names.
proof fn lemma_known_name_chars(n: Seq<char>)
    requires
        is_default_network(n),
    ensures
        n == seq!['h', 't', 't', 'p', ':', '/', '/', '1', '2', '7', '.', '0', '.', '0', '.', '1', '/']
            || n == seq!['m', 'a', 'i', 'n', '.', 'e', 'v', 'e', 'r', 'c', 'l', 'o', 'u', 'd', '.', 'd', 'e', 'v']
            || n == seq!['n', 'e', 't', '.', 'e', 'v', 'e', 'r', 'c', 'l', 'o', 'u', 'd', '.', 'd', 'e', 'v'],
{
    reveal_strlit("http://127.0.0.1/");
    reveal_strlit("main.evercloud.dev");
    reveal_strlit("net.evercloud.dev");
    if n == LOCALNET@ {
        assert(n =~= seq!['h', 't', 't', 'p', ':', '/', '/', '1', '2', '7', '.', '0', '.', '0', '.', '1', '/']);
    } else if n == MAINNET@ {
        assert(n =~= seq!['m', 'a', 'i', 'n', '.', 'e', 'v', 'e', 'r', 'c', 'l', 'o', 'u', 'd', '.', 'd', 'e', 'v']);
    } else {
        assert(n =~= seq!['n', 'e', 't', '.', 'e', 'v', 'e', 'r', 'c', 'l', 'o', 'u', 'd', '.', 'd', 'e', 'v']);
    }
}

/// Renaming legacy domains leaves the names of the known networks unchanged.
pub proof fn lemma_known_names_are_normal(n: Seq<char>)
    requires
        is_default_network(n),
    ensures
        normalized_net(n) == n,
{
    reveal_strlit("ton");
    reveal_strlit("everos");
    lemma_known_name_chars(n);
    assert forall|i: int| !crate::text::occurs_at(n, "ton"@, i) by {
        if crate::text::occurs_at(n, "ton"@, i) {
            assert(n.subrange(i, i + 3)[0] == 't' && n.subrange(i, i + 3)[1] == 'o');
            assert(n[i] == 't' && n[i + 1] == 'o');
        }
    }
    crate::text::lemma_replace_absent(n, "ton"@, "evercloud"@);
    assert forall|i: int| !crate::text::occurs_at(n, "everos"@, i) by {
        if crate::text::occurs_at(n, "everos"@, i) {
            assert(n.subrange(i, i + 6)[5] == 's');
            assert(n[i + 5] == 's');
        }
    }
    crate::text::lemma_replace_absent(n, "everos"@, "evercloud"@);
}

/// An address whose last matching pattern captures the name of a known network
/// resolves to that network.
pub proof fn lemma_captured_known_name_resolves(
    url: Seq<char>,
    evercloud: Option<Seq<char>>,
    ton: Option<Seq<char>>,
    everos: Option<Seq<char>>,
)
    requires
        last_capture(evercloud, ton, everos) matches Some(n) && is_default_network(n),
    ensures
        net_name(url, evercloud, ton, everos) == last_capture(evercloud, ton, everos),
{
    lemma_known_names_are_normal(last_capture(evercloud, ton, everos)->0);
}

/// The known network names against the address patterns: the two remote
/// ones are word characters followed by `.evercloud.dev`, the local one holds no
/// `.evercloud.dev`, and none holds `.ton.dev` or `.everos.dev`.
pub proof fn lemma_known_name_shape(n: Seq<char>)
    requires
        is_default_network(n),
    ensures
        n != LOCALNET@ ==> is_word_host(n, ".evercloud.dev"@),
        n == LOCALNET@ ==> !contains_seq(n, ".evercloud.dev"@),
        !contains_seq(n, ".ton.dev"@),
        !contains_seq(n, ".everos.dev"@),
{
    reveal_strlit("http://127.0.0.1/");
    reveal_strlit(".evercloud.dev");
    reveal_strlit(".ton.dev");
    reveal_strlit(".everos.dev");
    lemma_known_name_chars(n);
    let ec = ".evercloud.dev"@;
    assert(ec =~= seq!['.', 'e', 'v', 'e', 'r', 'c', 'l', 'o', 'u', 'd', '.', 'd', 'e', 'v']);
    assert(LOCALNET@ =~= seq!['h', 't', 't', 'p', ':', '/', '/', '1', '2', '7', '.', '0', '.', '0', '.', '1', '/']);
    if n != LOCALNET@ {
        let main = seq!['m', 'a', 'i', 'n', '.', 'e', 'v', 'e', 'r', 'c', 'l', 'o', 'u', 'd', '.', 'd', 'e', 'v'];
        let net = seq!['n', 'e', 't', '.', 'e', 'v', 'e', 'r', 'c', 'l', 'o', 'u', 'd', '.', 'd', 'e', 'v'];
        if n == main {
            assert(n.subrange(4, 18) =~= ec);
            assert(n[0] == 'm' && n[1] == 'a' && n[2] == 'i' && n[3] == 'n');
        } else {
            assert(n == net);
            assert(n.subrange(3, 17) =~= ec);
            assert(n[0] == 'n' && n[1] == 'e' && n[2] == 't');
        }
    } else {
        assert forall|i: int| !crate::text::occurs_at(n, ec, i) by {
            if crate::text::occurs_at(n, ec, i) {
                assert(n.subrange(i, i + ec.len())[2] == 'v');
                assert(n[i + 2] == 'v');
            }
        }
    }
    assert forall|i: int| !crate::text::occurs_at(n, ".ton.dev"@, i) by {
        if crate::text::occurs_at(n, ".ton.dev"@, i) {
            assert(n.subrange(i, i + 8)[0] == '.' && n.subrange(i, i + 8)[1] == 't' && n.subrange(
                i,
                i + 8,
            )[7] == 'v');
            assert(n[i] == '.' && n[i + 1] == 't' && n[i + 7] == 'v');
        }
    }
    assert forall|i: int| !crate::text::occurs_at(n, ".everos.dev"@, i) by {
        if crate::text::occurs_at(n, ".everos.dev"@, i) {
            assert(n.subrange(i, i + 11)[6] == 's');
            assert(n[i + 6] == 's');
        }
    }
}

/// A known network's name resolves to itself when the evercloud pattern
/// captures the whole of a remote network's name and nothing else captures.
pub proof fn lemma_known_name_resolves_to_itself(
    n: Seq<char>,
    evercloud: Option<Seq<char>>,
    ton: Option<Seq<char>>,
    everos: Option<Seq<char>>,
)
    requires
        is_default_network(n),
        n != LOCALNET@ ==> evercloud == Some(n),
        n == LOCALNET@ ==> evercloud is None,
        ton is None,
        everos is None,
    ensures
        net_name(n, evercloud, ton, everos) == Some(n),
{
    if n != LOCALNET@ {
        lemma_known_names_are_normal(n);
    } else {
        reveal_strlit("http://127.0.0.1/");
        reveal_strlit("127.0.0.1");
        reveal_strlit("main");
        reveal_strlit("dev");
        reveal_strlit("devnet");
        assert(n.len() != "main"@.len() && n.len() != "dev"@.len() && n.len() != "devnet"@.len());
        assert(n.subrange(7, 16) =~= "127.0.0.1"@);
        assert(crate::text::occurs_at(n, "127.0.0.1"@, 7));
    }
}

// ------------------------------------------------------------------------
// Query results and failures
// ------------------------------------------------------------------------

/// The message of a failed account query.
pub open spec fn failed_query_message(e: Seq<char>) -> Seq<char> {
    "failed to query account info: "@ + e
}

/// Records the answer to one account query: its rows are appended to
/// `collected` in order, or the failure becomes the error of the whole query.
pub fn record_batch_reply(collected: &mut Vec<String>, reply: Result<Vec<String>, String>) -> (res:
    Result<(), String>)
    ensures
        match reply {
            Ok(rows) => res is Ok && final(collected)@ == old(collected)@ + rows@,
            Err(e) => res matches Err(m) && m@ == failed_query_message(e@) && final(collected)@
                == old(collected)@,
        },
{
    match reply {
        Ok(rows) => {
            let mut i: usize = 0;
            while i < rows.len()
                invariant
                    i <= rows@.len(),
                    collected@ == old(collected)@ + rows@.take(i as int),
                decreases rows@.len() - i,
            {
                collected.push(rows[i].clone());
                assert(rows@.take(i + 1) =~= rows@.take(i as int).push(rows@[i as int]));
                i = i + 1;
            }
            assert(rows@.take(rows@.len() as int) =~= rows@);
            Ok(())
        },
        Err(e) => {
            let mut m = String::from_str("failed to query account info: ");
            m.append(e.as_str());
            Err(m)
        },
    }
}

/// The message of a failed creation of the SDK client.
pub fn client_creation_error(e: &str) -> (res: String)
    ensures
        res@ == "failed to create tonclient: "@ + e@,
{
    let mut m = String::from_str("failed to create tonclient: ");
    m.append(e);
    m
}

// ------------------------------------------------------------------------
// Laws of the query plan
// ------------------------------------------------------------------------

/// The queries for the addresses from position `51 * j` on: the `k`-th starts at
/// `51 * (j + k)` and names the next `min(n - start, 50)` addresses.
proof fn lemma_plan_from(n: int, j: int)
    requires
        j >= 0,
    ensures
        forall|k: int|
            0 <= k < batch_plan(n, 51 * j).len() ==> #[trigger] batch_plan(n, 51 * j)[k] == (
                51 * (j + k),
                if n - 51 * (j + k) < 50 {
                    n - 51 * (j + k)
                } else {
                    50
                },
            ),
        51 * (j + batch_plan(n, 51 * j).len()) >= n,
        batch_plan(n, 51 * j).len() > 0 ==> 51 * (j + batch_plan(n, 51 * j).len() - 1) < n,
    decreases (if 51 * j < n {
        n - 51 * j
    } else {
        0
    }),
{
    let it = 51 * j;
    if it < n {
        let e = batch_extra(n, it);
        assert(51 * (j + 1) == it + 51);
        lemma_plan_from(n, j + 1);
        let rest = batch_plan(n, 51 * (j + 1));
        if e == 50 {
            assert(batch_plan(n, it) == seq![(it, e)] + rest);
        } else {
            assert(it + 1 + e == n + 1);
            assert(batch_plan(n, it + 1 + e) =~= Seq::<(int, int)>::empty());
            assert(rest =~= Seq::<(int, int)>::empty());
            assert(batch_plan(n, it) =~= seq![(it, e)] + rest);
        }
        let plan = batch_plan(n, it);
        assert(plan.len() == rest.len() + 1);
        assert forall|k: int| 0 <= k < plan.len() implies #[trigger] plan[k] == (
            51 * (j + k),
            if n - 51 * (j + k) < 50 {
                n - 51 * (j + k)
            } else {
                50
            },
        ) by {
            if k > 0 {
                assert(plan[k] == rest[k - 1]);
                assert(j + 1 + (k - 1) == j + k);
            }
        }
        assert(j + 1 + rest.len() == j + plan.len());
    }
}

/// The query (start, extra) names the address at position `i`.
pub open spec fn names_position(q: (int, int), i: int) -> bool {
    q.0 <= i < q.0 + q.1
}

/// The query that names the address at position `i`, counting from zero, when
/// `i % 51 != 50`.
pub open spec fn query_index(i: int) -> int {
    i / 51
}

/// Every query of the plan over `n` addresses names `min(n - start, 50)`
/// addresses after its start, the `k`-th query starting at `51 * k`; so the
/// plan covers every position except those `51 * k - 1` (`k >= 1`), which no
/// query names.
pub proof fn lemma_batch_plan_exact(n: int)
    ensures
        forall|k: int|
            0 <= k < batch_plan(n, 0).len() ==> (#[trigger] batch_plan(n, 0)[k]).0 == 51 * k && batch_plan(
                n,
                0,
            )[k].1 == (if n - 51 * k < 50 {
                n - 51 * k
            } else {
                50
            }),
        forall|i: int|
            0 <= i < n && i % 51 != 50 ==> {
                let k = #[trigger] query_index(i);
                &&& 0 <= k < batch_plan(n, 0).len()
                &&& batch_plan(n, 0)[k].0 <= i < batch_plan(n, 0)[k].0 + batch_plan(n, 0)[k].1
            },
        forall|k: int, i: int|
            0 <= k < batch_plan(n, 0).len() && #[trigger] names_position(batch_plan(n, 0)[k], i) ==> i
                % 51 != 50,
{
    lemma_plan_from(n, 0);
    let plan = batch_plan(n, 0);
    assert(plan == batch_plan(n, 51 * 0int));
    assert forall|k: int| 0 <= k < plan.len() implies (#[trigger] plan[k]).0 == 51 * k && plan[k].1 == (
        if n - 51 * k < 50 {
            n - 51 * k
        } else {
            50
        }) by {
        assert(plan[k] == batch_plan(n, 51 * 0int)[k]);
    }
    assert forall|i: int| 0 <= i < n && i % 51 != 50 implies {
        let k = #[trigger] query_index(i);
        &&& 0 <= k < plan.len()
        &&& plan[k].0 <= i < plan[k].0 + plan[k].1
    } by {
        let k = i / 51;
        assert(51 * k <= i && i - 51 * k < 50 && k >= 0) by (nonlinear_arith)
            requires
                0 <= i,
                i % 51 != 50,
                k == i / 51,
        ;
        if k >= plan.len() {
            assert(51 * k >= 51 * plan.len()) by (nonlinear_arith)
                requires
                    k >= plan.len(),
            ;
        }
        assert(plan[k] == batch_plan(n, 51 * 0int)[k]);
    }
    assert forall|k: int, i: int|
        0 <= k < plan.len() && #[trigger] names_position(plan[k], i) implies i % 51 != 50 by {
        assert(plan[k] == batch_plan(n, 51 * 0int)[k]);
        assert(plan[k].1 <= 50);
        assert(i % 51 != 50) by (nonlinear_arith)
            requires
                51 * k <= i < 51 * k + 50,
                k >= 0,
        ;
    }
}

// ------------------------------------------------------------------------
// Laws of the legacy renaming
// ------------------------------------------------------------------------

/// The domains of the three address patterns, as character sequences.
proof fn lemma_domain_chars()
    ensures
        ".evercloud.dev"@ == seq!['.', 'e', 'v', 'e', 'r', 'c', 'l', 'o', 'u', 'd', '.', 'd', 'e', 'v'],
        ".ton.dev"@ == seq!['.', 't', 'o', 'n', '.', 'd', 'e', 'v'],
        ".everos.dev"@ == seq!['.', 'e', 'v', 'e', 'r', 'o', 's', '.', 'd', 'e', 'v'],
        "ton"@ == seq!['t', 'o', 'n'],
        "everos"@ == seq!['e', 'v', 'e', 'r', 'o', 's'],
        "evercloud"@ == seq!['e', 'v', 'e', 'r', 'c', 'l', 'o', 'u', 'd'],
{
    reveal_strlit(".evercloud.dev");
    reveal_strlit(".ton.dev");
    reveal_strlit(".everos.dev");
    reveal_strlit("ton");
    reveal_strlit("everos");
    reveal_strlit("evercloud");
    assert(".evercloud.dev"@ =~= seq!['.', 'e', 'v', 'e', 'r', 'c', 'l', 'o', 'u', 'd', '.', 'd', 'e', 'v']);
    assert(".ton.dev"@ =~= seq!['.', 't', 'o', 'n', '.', 'd', 'e', 'v']);
    assert(".everos.dev"@ =~= seq!['.', 'e', 'v', 'e', 'r', 'o', 's', '.', 'd', 'e', 'v']);
    assert("ton"@ =~= seq!['t', 'o', 'n']);
    assert("everos"@ =~= seq!['e', 'v', 'e', 'r', 'o', 's']);
    assert("evercloud"@ =~= seq!['e', 'v', 'e', 'r', 'c', 'l', 'o', 'u', 'd']);
}

/// `p` does not occur in `s` when some character of `p` occurs nowhere in `s`.
proof fn lemma_absent_by_char(s: Seq<char>, p: Seq<char>, k: int)
    requires
        0 <= k < p.len(),
        forall|i: int| 0 <= i < s.len() ==> s[i] != p[k],
    ensures
        !contains_seq(s, p),
{
    assert forall|i: int| !crate::text::occurs_at(s, p, i) by {
        if crate::text::occurs_at(s, p, i) {
            assert(s.subrange(i, i + p.len())[k] == p[k]);
        }
    }
}

/// Renaming a host `w` followed by one of the three domains gives `w` followed
/// by `.evercloud.dev`, when `w` holds neither `ton` nor `everos`.
proof fn lemma_host_renamed(w: Seq<char>, dom: Seq<char>)
    requires
        dom == ".evercloud.dev"@ || dom == ".ton.dev"@ || dom == ".everos.dev"@,
        !contains_seq(w, "ton"@),
        !contains_seq(w, "everos"@),
    ensures
        normalized_net(w + dom) == w + ".evercloud.dev"@,
{
    lemma_domain_chars();
    let ec = ".evercloud.dev"@;
    let ton = "ton"@;
    let ev = "everos"@;
    let cloud = "evercloud"@;
    crate::text::lemma_no_straddle_at_char(w, dom, ton, '.');
    crate::text::lemma_no_straddle_at_char(w, dom, ev, '.');
    crate::text::lemma_no_straddle_at_char(w, ec, ev, '.');
    crate::text::lemma_replace_absent(w, ton, cloud);
    crate::text::lemma_replace_absent(w, ev, cloud);
    crate::text::lemma_replace_concat(w, dom, ton, cloud);
    // the domain `.evercloud.dev` holds no `s`, so no `everos`
    lemma_absent_by_char(ec, ev, 5);
    crate::text::lemma_replace_absent(ec, ev, cloud);
    if dom == ec {
        lemma_absent_by_char(ec, ton, 0);
        crate::text::lemma_replace_absent(ec, ton, cloud);
        crate::text::lemma_replace_concat(w, ec, ev, cloud);
    } else if dom == ".ton.dev"@ {
        let d = dom.skip(4);
        assert(d =~= seq!['.', 'd', 'e', 'v']);
        lemma_absent_by_char(d, ton, 0);
        crate::text::lemma_replace_absent(d, ton, cloud);
        assert(!crate::text::occurs_at(dom, ton, 0));
        assert(dom.skip(1).subrange(0, 3) =~= ton);
        assert(dom.skip(1).skip(3) =~= d);
        assert(replace_all(dom.skip(1), ton, cloud) == cloud + replace_all(d, ton, cloud));
        assert(replace_all(dom, ton, cloud) == seq![dom[0]] + replace_all(dom.skip(1), ton, cloud));
        assert(replace_all(dom, ton, cloud) =~= ec);
        crate::text::lemma_replace_concat(w, ec, ev, cloud);
    } else {
        lemma_absent_by_char(dom, ton, 0);
        crate::text::lemma_replace_absent(dom, ton, cloud);
        let d = dom.skip(7);
        assert(d =~= seq!['.', 'd', 'e', 'v']);
        lemma_absent_by_char(d, ev, 5);
        crate::text::lemma_replace_absent(d, ev, cloud);
        assert(!crate::text::occurs_at(dom, ev, 0));
        assert(dom.skip(1).subrange(0, 6) =~= ev);
        assert(dom.skip(1).skip(6) =~= d);
        assert(replace_all(dom.skip(1), ev, cloud) == cloud + replace_all(d, ev, cloud));
        assert(replace_all(dom, ev, cloud) == seq![dom[0]] + replace_all(dom.skip(1), ev, cloud));
        assert(replace_all(dom, ev, cloud) =~= ec);
        crate::text::lemma_replace_concat(w, dom, ev, cloud);
    }
}

/// A host that the last matching pattern captures as `w.ton.dev`,
/// `w.everos.dev` or `w.evercloud.dev` resolves to `w.evercloud.dev` when that
/// is a known network: the legacy renaming changes only the domain.
pub proof fn lemma_legacy_hosts_renamed(
    url: Seq<char>,
    w: Seq<char>,
    evercloud: Option<Seq<char>>,
    ton: Option<Seq<char>>,
    everos: Option<Seq<char>>,
)
    requires
        !contains_seq(w, "ton"@),
        !contains_seq(w, "everos"@),
        is_default_network(w + ".evercloud.dev"@),
    ensures
        everos == Some(w + ".everos.dev"@) ==> net_name(url, evercloud, ton, everos) == Some(
            w + ".evercloud.dev"@,
        ),
        everos is None && ton == Some(w + ".ton.dev"@) ==> net_name(url, evercloud, ton, everos)
            == Some(w + ".evercloud.dev"@),
        everos is None && ton is None && evercloud == Some(w + ".evercloud.dev"@) ==> net_name(
            url,
            evercloud,
            ton,
            everos,
        ) == Some(w + ".evercloud.dev"@),
{
    lemma_host_renamed(w, ".everos.dev"@);
    lemma_host_renamed(w, ".ton.dev"@);
    lemma_host_renamed(w, ".evercloud.dev"@);
}

// ------------------------------------------------------------------------
// Laws of endpoints and client settings
// ------------------------------------------------------------------------

/// Each server endpoint is the configured endpoint (the url when none is
/// configured) without its trailing slashes, followed by `/` and the project
/// identifier when there is one, whether or not endpoints are configured.
pub proof fn lemma_endpoints_decorated(url: Seq<char>, endpoints: Seq<Seq<char>>, project_id: Option<Seq<char>>)
    ensures
        server_endpoints(url, endpoints, project_id).len() == (if endpoints.len() == 0 {
            1
        } else {
            endpoints.len()
        }),
        forall|i: int|
            0 <= i < server_endpoints(url, endpoints, project_id).len() ==> {
                let e = if endpoints.len() == 0 {
                    url
                } else {
                    endpoints[i]
                };
                #[trigger] server_endpoints(url, endpoints, project_id)[i] == match project_id {
                    Some(p) => trim_end_char(e, '/') + seq!['/'] + p,
                    None => trim_end_char(e, '/'),
                }
            },
        endpoints.len() == 0 ==> server_endpoints(url, endpoints, project_id) == seq![
            match project_id {
                Some(p) => trim_end_char(url, '/') + seq!['/'] + p,
                None => trim_end_char(url, '/'),
            },
        ],
{
    let r = server_endpoints(url, endpoints, project_id);
    if endpoints.len() == 0 {
        assert(r =~= seq![
            match project_id {
                Some(p) => trim_end_char(url, '/') + seq!['/'] + p,
                None => trim_end_char(url, '/'),
            },
        ]);
    }
}

/// The client settings take the configured workchain, url, access key and
/// waiting timeout (not the message processing timeout, which is always thirty
/// seconds), the lifetime and out-of-sync threshold in milliseconds, the
/// standard seed-phrase length and derivation path, and the retry count
/// reinterpreted as a signed byte.
pub proof fn lemma_settings_fields(s: ClientSettings, c: FrontConfig, resolved: Option<Seq<char>>)
    requires
        settings_of(s, c, resolved),
    ensures
        s.network.wait_for_timeout == c.timeout,
        s.network.message_processing_timeout == 30000,
        s.abi.workchain == c.wc,
        s.abi.message_expiration_timeout == c.lifetime * 1000,
        s.network.out_of_sync_threshold == c.out_of_sync_threshold * 1000,
        s.network.server_address@ == c.url@,
        opt_view(s.network.access_key) == opt_view(c.access_key),
        s.crypto.mnemonic_word_count == 12,
        s.network.message_retries_count as int == (if c.retries < 128 {
            c.retries as int
        } else {
            c.retries - 256
        }),
{
}

} // verus!
