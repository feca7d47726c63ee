//! The decisions of the test engine: request routing, starting and stopping a
//! batch, matching the chosen proxies, the subscription request, the provider
//! names reported by the core, and which results a poll reports as done.

use vstd::prelude::*;
use vstd::string::StringSliceAdditionalSpecFns;

use crate::json::{json_member, json_member_of, text_or, JsonField};
use crate::sub::{find_char, NodeInfo};
use crate::text::{
    occurs_at_index, chars_of, contains_chars, contains_seq, find_seq, lowercase, push_char, push_int, push_str_chars,
    slice_chars, str_eq, string_of, to_lowercase, trim, trim_chars,
};

verus! {

/// The group shown when the user gave none.
pub const DEFAULT_GROUP_LABEL: &'static str = "Node Speedtest";
/// The default speed-test download.
pub const DEFAULT_TEST_FILE: &'static str = "https://speed.cloudflare.com/__down?bytes=95000000";
/// The latency probe target.
pub const LATENCY_URL: &'static str = "https://cp.cloudflare.com/generate_204";
/// The core's controller address.
pub const CONTROLLER: &'static str = "127.0.0.1:9990";
/// The core's SOCKS port.
pub const DEFAULT_SOCKS_PORT: u16 = 65432;
/// How long after a batch a new start is answered `done`, in milliseconds.
pub const DONE_COOLDOWN_MS: u64 = 5000;
/// The largest subscription body accepted, in bytes.
pub const MAX_SUB_BYTES: u64 = 10485760;

/// The path of a request without its query.
pub open spec fn path_only(p: Seq<char>) -> Seq<char> {
    match find_char(p, '?') {
        Some(i) => p.take(i),
        None => p,
    }
}

/// The path of a request without its query.
pub fn request_path(path: &str) -> (r: String)
    ensures
        r@ == path_only(path@),
{
    let cs = chars_of(path);
    let q = ['?'];
    assert(q@ =~= seq!['?']);
    proof {
        crate::text::lemma_find_first(cs@, seq!['?']);
    }
    match find_seq(&cs, &q) {
        Some(i) => {
            assert(crate::text::occurs_at(cs@, seq!['?'], i as int));
            let t = slice_chars(&cs, 0, i);
            assert(t@ =~= cs@.take(i as int));
            string_of(&t)
        },
        None => string_of(&cs),
    }
}

/// The GET endpoints.
#[derive(Clone, Copy, PartialEq, Eq, Structural, Debug)]
pub enum GetRoute {
    Status,
    Version,
    Results,
    CheckUpdate,
    CheckAppUpdate,
    Unknown,
}

/// The GET endpoint of a path (its query ignored).
pub open spec fn spec_get_route(p: Seq<char>) -> GetRoute {
    let q = path_only(p);
    if q == "/status"@ {
        GetRoute::Status
    } else if q == "/getversion"@ {
        GetRoute::Version
    } else if q == "/getresults"@ {
        GetRoute::Results
    } else if q == "/checkupdate"@ {
        GetRoute::CheckUpdate
    } else if q == "/checkappupdate"@ {
        GetRoute::CheckAppUpdate
    } else {
        GetRoute::Unknown
    }
}

/// Routes a GET request.
pub fn get_route(path: &str) -> (r: GetRoute)
    ensures
        r == spec_get_route(path@),
{
    let p = request_path(path);
    let q = p.as_str();
    if str_eq(q, "/status") {
        GetRoute::Status
    } else if str_eq(q, "/getversion") {
        GetRoute::Version
    } else if str_eq(q, "/getresults") {
        GetRoute::Results
    } else if str_eq(q, "/checkupdate") {
        GetRoute::CheckUpdate
    } else if str_eq(q, "/checkappupdate") {
        GetRoute::CheckAppUpdate
    } else {
        GetRoute::Unknown
    }
}

/// The POST endpoints that take JSON.
#[derive(Clone, Copy, PartialEq, Eq, Structural, Debug)]
pub enum PostRoute {
    ReadSubscriptions,
    Start,
    Stop,
    Unknown,
}

/// The JSON POST endpoint of a path.
pub open spec fn spec_post_route(p: Seq<char>) -> PostRoute {
    let q = path_only(p);
    if q == "/readsubscriptions"@ {
        PostRoute::ReadSubscriptions
    } else if q == "/start"@ {
        PostRoute::Start
    } else if q == "/stop"@ {
        PostRoute::Stop
    } else {
        PostRoute::Unknown
    }
}

/// Routes a JSON POST request.
pub fn post_route(path: &str) -> (r: PostRoute)
    ensures
        r == spec_post_route(path@),
{
    let p = request_path(path);
    let q = p.as_str();
    if str_eq(q, "/readsubscriptions") {
        PostRoute::ReadSubscriptions
    } else if str_eq(q, "/start") {
        PostRoute::Start
    } else if str_eq(q, "/stop") {
        PostRoute::Stop
    } else {
        PostRoute::Unknown
    }
}

/// Whether a file POST goes to the one file endpoint, `/readfileconfig`.
pub fn is_file_config_route(path: &str) -> (r: bool)
    ensures
        r == (path_only(path@) == "/readfileconfig"@),
{
    let p = request_path(path);
    str_eq(p.as_str(), "/readfileconfig")
}

/// `未知路径: ` and the path.
pub open spec fn unknown_path_text(p: Seq<char>) -> Seq<char> {
    "未知路径: "@ + p
}

/// The error for a request to no endpoint; it names the path without query.
pub fn unknown_path_error(path: &str) -> (r: String)
    ensures
        r@ == unknown_path_text(path_only(path@)),
{
    let mut m = string_of(&chars_of("未知路径: "));
    let p = request_path(path);
    push_str_chars(&mut m, &chars_of(p.as_str()));
    m
}

/// The status text: `running` or `stopped`.
pub fn status_text(running: bool) -> (r: &'static str)
    ensures
        r@ == (if running { "running"@ } else { "stopped"@ }),
{
    if running {
        "running"
    } else {
        "stopped"
    }
}

/// The reply to a stop request: `stopped` when nothing runs, else `stopping`
/// (the batch is then cancelled).
pub fn stop_reply(running: bool) -> (r: &'static str)
    ensures
        r@ == (if running { "stopping"@ } else { "stopped"@ }),
{
    if running {
        "stopping"
    } else {
        "stopped"
    }
}

/// `s` with every non-overlapping occurrence of `pat`, left to right,
/// replaced by `rep`.
pub open spec fn replace_all(s: Seq<char>, pat: Seq<char>, rep: Seq<char>) -> Seq<char>
    recommends
        pat.len() > 0,
    decreases s.len(),
{
    if s.len() == 0 || pat.len() == 0 {
        s
    } else if s.len() >= pat.len() && s.take(pat.len() as int) == pat {
        rep + replace_all(s.skip(pat.len() as int), pat, rep)
    } else {
        seq![s[0]] + replace_all(s.skip(1), pat, rep)
    }
}

/// `reverse_`
pub open spec fn reverse_prefix() -> Seq<char> {
    seq!['r', 'e', 'v', 'e', 'r', 's', 'e', '_']
}

/// The sort method as results use it: lower case, `reverse_` written `r`.
pub open spec fn spec_sort_method(s: Seq<char>) -> Seq<char> {
    replace_all(lowercase(s), reverse_prefix(), seq!['r'])
}

/// Normalises a sort method (`Reverse_Speed` becomes `rspeed`).
pub fn normalize_sort_method(s: &str) -> (r: String)
    ensures
        r@ == spec_sort_method(s@),
{
    let lower = to_lowercase(s);
    let cs = chars_of(lower.as_str());
    let pat = ['r', 'e', 'v', 'e', 'r', 's', 'e', '_'];
    assert(pat@ =~= reverse_prefix());
    let mut out: Vec<char> = Vec::new();
    let mut i: usize = 0;
    assert(cs@.skip(0) =~= cs@);
    assert(out@ + replace_all(cs@.skip(0), reverse_prefix(), seq!['r']) =~= replace_all(cs@, reverse_prefix(), seq!['r']));
    while i < cs.len()
        invariant
            i <= cs@.len(),
            pat@ == reverse_prefix(),
            replace_all(cs@, reverse_prefix(), seq!['r']) == out@ + replace_all(cs@.skip(i as int), reverse_prefix(), seq!['r']),
        decreases cs@.len() - i,
    {
        let ghost rest = cs@.skip(i as int);
        let m = occurs_at_index(&cs, i, &pat);
        if m {
            assert(rest.take(8) =~= reverse_prefix()) by {
                assert(cs@.subrange(i as int, i + 8) =~= rest.take(8));
            }
            assert(rest.skip(8) =~= cs@.skip(i + 8));
            let ghost before = out@;
            out.push('r');
            assert(out@ =~= before + seq!['r']);
            i += 8;
        } else {
            assert(rest.len() < 8 || rest.take(8) != reverse_prefix()) by {
                if rest.len() >= 8 && rest.take(8) == reverse_prefix() {
                    assert(cs@.subrange(i as int, i + 8) =~= rest.take(8));
                }
            }
            assert(rest.skip(1) =~= cs@.skip(i + 1));
            let ghost before = out@;
            out.push(cs[i]);
            assert(out@ =~= before + seq![rest[0]]);
            i += 1;
        }
    }
    assert(cs@.skip(i as int) =~= Seq::<char>::empty());
    assert(out@ =~= out@ + Seq::<char>::empty());
    string_of(&out)
}

/// Whether the test mode asks for latency only.
pub fn is_ping_only(test_mode: &str) -> (r: bool)
    ensures
        r == (test_mode@ == "TCP_PING"@),
{
    str_eq(test_mode, "TCP_PING")
}

/// The group label of a batch: the trimmed custom group, or the default
/// label when it is blank.
pub open spec fn spec_group_label(custom: Seq<char>) -> Seq<char> {
    if trim(custom).len() > 0 {
        trim(custom)
    } else {
        DEFAULT_GROUP_LABEL@
    }
}

/// The group used for titles and result names.
pub fn resolve_test_group(custom_group: &str, _nodes: &[NodeInfo]) -> (r: String)
    ensures
        r@ == spec_group_label(custom_group@),
{
    let t = trim_chars(&chars_of(custom_group));
    if t.len() > 0 {
        string_of(&t)
    } else {
        string_of(&chars_of(DEFAULT_GROUP_LABEL))
    }
}

/// The fields of a chosen proxy as the page sends them back.
#[derive(Debug)]
pub struct NodeConfigFields {
    pub group: String,
    pub remarks: String,
    pub server: String,
    pub server_port: i32,
}

/// One chosen proxy; `kind` is its protocol name.
#[derive(Debug)]
pub struct NodeConfigIn {
    pub kind: String,
    pub config: NodeConfigFields,
}

/// A start request: the chosen proxies, the test mode, the sort method and
/// the custom group.
#[derive(Debug)]
pub struct StartRequest {
    pub configs: Vec<NodeConfigIn>,
    pub test_mode: String,
    pub sort_method: String,
    pub group: String,
}

/// A proxy unit is the one a chosen entry names.
pub open spec fn names_node(n: NodeInfo, c: NodeConfigFields) -> bool {
    n.group@ == c.group@ && n.remarks@ == c.remarks@ && n.server@ == c.server@ && n.port == c.server_port
}

/// The first unit a chosen entry names.
pub open spec fn first_named(all: Seq<NodeInfo>, c: NodeConfigFields) -> Option<int>
    decreases all.len(),
{
    if all.len() == 0 {
        None
    } else {
        match first_named(all.drop_last(), c) {
            Some(k) => Some(k),
            None => if names_node(all.last(), c) {
                Some(all.len() - 1)
            } else {
                None
            },
        }
    }
}

/// The units matched by the chosen entries, in their order (entries that
/// name no unit are skipped), as indices into `all`.
pub open spec fn matched(all: Seq<NodeInfo>, configs: Seq<NodeConfigIn>) -> Seq<int>
    decreases configs.len(),
{
    if configs.len() == 0 {
        Seq::empty()
    } else {
        let prev = matched(all, configs.drop_last());
        match first_named(all, configs.last().config) {
            Some(k) => prev.push(k),
            None => prev,
        }
    }
}

/// Two units hold the same texts and values; `id` aside.
pub open spec fn same_unit(a: NodeInfo, b: NodeInfo) -> bool {
    &&& a.group@ == b.group@
    &&& a.remarks@ == b.remarks@
    &&& a.server@ == b.server@
    &&& a.port == b.port
    &&& a.proxy_str@ == b.proxy_str@
    &&& a.proxy_type@ == b.proxy_type@
    &&& a.raw_unit@ == b.raw_unit@
    &&& a.is_link_unit == b.is_link_unit
}

fn copy_string(s: &String) -> (r: String)
    ensures
        r@ == s@,
{
    string_of(&chars_of(s.as_str()))
}

/// A copy of a unit with a new id.
pub fn copy_unit(n: &NodeInfo, id: i32) -> (r: NodeInfo)
    ensures
        same_unit(r, *n),
        r.id == id,
{
    NodeInfo {
        id,
        group: copy_string(&n.group),
        remarks: copy_string(&n.remarks),
        server: copy_string(&n.server),
        port: n.port,
        proxy_str: copy_string(&n.proxy_str),
        proxy_type: copy_string(&n.proxy_type),
        raw_unit: copy_string(&n.raw_unit),
        is_link_unit: n.is_link_unit,
    }
}

fn find_named(all: &[NodeInfo], c: &NodeConfigFields) -> (r: Option<usize>)
    ensures
        match (r, first_named(all@, *c)) {
            (Some(k), Some(j)) => k == j,
            (None, None) => true,
            _ => false,
        },
{
    let mut i: usize = 0;
    while i < all.len()
        invariant
            i <= all@.len(),
            first_named(all@.take(i as int), *c) is None,
        decreases all@.len() - i,
    {
        assert(all@.take(i + 1).drop_last() =~= all@.take(i as int));
        let n = &all[i];
        if str_eq(n.group.as_str(), c.group.as_str()) && str_eq(n.remarks.as_str(), c.remarks.as_str())
            && str_eq(n.server.as_str(), c.server.as_str()) && n.port == c.server_port {
            proof {
                lemma_first_named_prefix(all@, *c, i as int + 1);
            }
            return Some(i);
        }
        i += 1;
    }
    assert(all@.take(i as int) =~= all@);
    None
}

proof fn lemma_first_named_prefix(all: Seq<NodeInfo>, c: NodeConfigFields, k: int)
    requires
        0 <= k <= all.len(),
        first_named(all.take(k), c) is Some,
    ensures
        first_named(all, c) == first_named(all.take(k), c),
    decreases all.len() - k,
{
    if k < all.len() {
        assert(all.take(k + 1).drop_last() =~= all.take(k));
        lemma_first_named_prefix(all, c, k + 1);
    } else {
        assert(all.take(k) =~= all);
    }
}

/// `out` holds copies of the matched units, each with its position as id.
pub open spec fn targets_ok(out: Seq<NodeInfo>, all: Seq<NodeInfo>, configs: Seq<NodeConfigIn>) -> bool {
    let m = matched(all, configs);
    &&& out.len() == m.len()
    &&& forall|k: int| 0 <= k < out.len() ==> 0 <= #[trigger] m[k] < all.len() && same_unit(out[k], all[m[k]]) && out[k].id == k
}

proof fn lemma_first_named_bounds(all: Seq<NodeInfo>, c: NodeConfigFields)
    ensures
        first_named(all, c) matches Some(k) ==> 0 <= k < all.len(),
    decreases all.len(),
{
    if all.len() > 0 {
        lemma_first_named_bounds(all.drop_last(), c);
    }
}

/// The chosen units, in the order chosen and numbered from 0.
pub fn match_targets(all: &[NodeInfo], configs: &[NodeConfigIn]) -> (out: Vec<NodeInfo>)
    requires
        configs@.len() <= i32::MAX,
    ensures
        targets_ok(out@, all@, configs@),
{
    let mut out: Vec<NodeInfo> = Vec::new();
    let mut i: usize = 0;
    while i < configs.len()
        invariant
            i <= configs@.len() <= i32::MAX,
            out@.len() <= i,
            targets_ok(out@, all@, configs@.take(i as int)),
        decreases configs@.len() - i,
    {
        assert(configs@.take(i + 1).drop_last() =~= configs@.take(i as int));
        proof {
            lemma_first_named_bounds(all@, configs@[i as int].config);
        }
        match find_named(all, &configs[i].config) {
            Some(k) => {
                let id = out.len() as i32;
                let n = copy_unit(&all[k], id);
                let ghost prev = out@;
                out.push(n);
                proof {
                    let m = matched(all@, configs@.take(i + 1));
                    assert(m == matched(all@, configs@.take(i as int)).push(k as int));
                    assert forall|j: int| 0 <= j < out@.len() implies 0 <= #[trigger] m[j] < all@.len() && same_unit(
                        out@[j],
                        all@[m[j]],
                    ) && out@[j].id == j by {
                        if j < out@.len() - 1 {
                            assert(out@[j] == prev[j]);
                            assert(m[j] == matched(all@, configs@.take(i as int))[j]);
                        }
                    }
                }
            },
            None => {},
        }
        i += 1;
    }
    assert(configs@.take(configs@.len() as int) =~= configs@);
    out
}

/// What a start request comes to.
#[derive(Debug)]
pub enum StartDecision {
    /// A batch is running or winding down.
    Busy,
    /// A batch ended moments ago.
    Done,
    /// Start a batch of these units, labelled with the group.
    Start { targets: Vec<NodeInfo>, ping_only: bool, sort_method: String, group_label: String },
}

/// The error for a start request that names no known unit.
pub open spec fn no_targets_text() -> Seq<char> {
    "没有匹配到可测节点，请重新导入订阅"@
}

/// Whether a batch ended within the cool-down.
pub fn within_cooldown(elapsed_ms: u64) -> (r: bool)
    ensures
        r == (elapsed_ms < DONE_COOLDOWN_MS),
{
    elapsed_ms < DONE_COOLDOWN_MS
}

/// `d` is the answer to a start request: `busy` while a batch runs, `done`
/// within the cool-down after one, the error when no chosen unit is known,
/// else the matched units, each relabelled with the batch group.
pub open spec fn start_ok(
    d: Result<StartDecision, String>,
    all: Seq<NodeInfo>,
    req: StartRequest,
    running: bool,
    batch_active: bool,
    cooling_down: bool,
) -> bool {
    if running || batch_active {
        d matches Ok(StartDecision::Busy)
    } else if cooling_down {
        d matches Ok(StartDecision::Done)
    } else if matched(all, req.configs@).len() == 0 {
        d matches Err(e) && e@ == no_targets_text()
    } else {
        d matches Ok(StartDecision::Start { targets, ping_only, sort_method, group_label }) && {
            let m = matched(all, req.configs@);
            &&& group_label@ == spec_group_label(req.group@)
            &&& ping_only == (req.test_mode@ == "TCP_PING"@)
            &&& sort_method@ == spec_sort_method(req.sort_method@)
            &&& targets@.len() == m.len()
            &&& forall|k: int| 0 <= k < targets@.len() ==> {
                let t = #[trigger] targets@[k];
                let n = all[m[k]];
                &&& t.id == k
                &&& t.group@ == group_label@
                &&& t.remarks@ == n.remarks@
                &&& t.server@ == n.server@
                &&& t.port == n.port
                &&& t.proxy_str@ == n.proxy_str@
                &&& t.proxy_type@ == n.proxy_type@
                &&& t.raw_unit@ == n.raw_unit@
                &&& t.is_link_unit == n.is_link_unit
            }
        }
    }
}

/// Decides a start request from the engine's state: whether a batch runs or
/// its task is still alive, and whether the last one ended within the
/// cool-down.
pub fn decide_start(
    all: &[NodeInfo],
    req: &StartRequest,
    running: bool,
    batch_active: bool,
    cooling_down: bool,
) -> (d: Result<StartDecision, String>)
    requires
        req.configs@.len() <= i32::MAX,
    ensures
        start_ok(d, all@, *req, running, batch_active, cooling_down),
{
    if running || batch_active {
        return Ok(StartDecision::Busy);
    }
    if cooling_down {
        return Ok(StartDecision::Done);
    }
    let targets = match_targets(all, &req.configs);
    if targets.len() == 0 {
        return Err(string_of(&chars_of("没有匹配到可测节点，请重新导入订阅")));
    }
    let label = resolve_test_group(req.group.as_str(), all);
    let mut relabelled: Vec<NodeInfo> = Vec::new();
    let mut k: usize = 0;
    while k < targets.len()
        invariant
            k <= targets@.len(),
            relabelled@.len() == k,
            forall|j: int| 0 <= j < k ==> {
                let t = #[trigger] relabelled@[j];
                let n = targets@[j];
                &&& t.id == n.id
                &&& t.group@ == label@
                &&& t.remarks@ == n.remarks@
                &&& t.server@ == n.server@
                &&& t.port == n.port
                &&& t.proxy_str@ == n.proxy_str@
                &&& t.proxy_type@ == n.proxy_type@
                &&& t.raw_unit@ == n.raw_unit@
                &&& t.is_link_unit == n.is_link_unit
            },
        decreases targets@.len() - k,
    {
        let mut t = copy_unit(&targets[k], targets[k].id);
        t.group = copy_string(&label);
        relabelled.push(t);
        k += 1;
    }
    proof {
        let m = matched(all@, req.configs@);
        assert forall|j: int| 0 <= j < relabelled@.len() implies same_unit(targets@[j], all@[m[j]]) && targets@[j].id == j by {
            assert(0 <= m[j] < all@.len());
        }
    }
    Ok(StartDecision::Start {
        targets: relabelled,
        ping_only: is_ping_only(req.test_mode.as_str()),
        sort_method: normalize_sort_method(req.sort_method.as_str()),
        group_label: label,
    })
}

/// What a subscription request asks for.
#[derive(Debug)]
pub enum SubRequest {
    /// Download the subscription at this address.
    Fetch(String),
    /// Import this text as it is.
    Import(String),
}

/// `JSON 无效: ` and the parser's message.
pub open spec fn bad_json_text(e: Seq<char>) -> Seq<char> {
    "JSON 无效: "@ + e
}

/// The error for an empty subscription field.
pub open spec fn empty_url_text() -> Seq<char> {
    "订阅链接为空"@
}

/// `s` starts with `p`.
pub open spec fn starts_with(s: Seq<char>, p: Seq<char>) -> bool {
    s.len() >= p.len() && s.take(p.len() as int) == p
}

/// `r` is the reading of a subscription request body: its `url` member
/// (trimmed; a missing or non-string member reads as empty) is downloaded
/// when it is one line starting with `http://` or `https://`, and imported
/// as text otherwise.
pub open spec fn sub_request_ok(r: Result<SubRequest, String>, body: Seq<u8>) -> bool {
    match json_member(body, "url"@) {
        Err(e) => r matches Err(m) && m@ == bad_json_text(e@),
        Ok(f) => {
            let url = trim(text_or(f, Seq::empty()));
            if url.len() == 0 {
                r matches Err(m) && m@ == empty_url_text()
            } else if crate::sub::single_line(url) && (starts_with(url, "http://"@) || starts_with(url, "https://"@)) {
                r matches Ok(SubRequest::Fetch(u)) && u@ == url
            } else {
                r matches Ok(SubRequest::Import(u)) && u@ == url
            }
        },
    }
}

fn starts_with_chars(s: &[char], p: &str) -> (r: bool)
    ensures
        r == starts_with(s@, p@),
{
    let pc = chars_of(p);
    let r = occurs_at_index(s, 0, &pc);
    assert(r == starts_with(s@, p@)) by {
        assert(s@.take(pc@.len() as int) =~= s@.subrange(0, pc@.len() as int));
    }
    r
}

/// Reads the body of a subscription request.
pub fn subscription_request(body: &str) -> (r: Result<SubRequest, String>)
    ensures
        sub_request_ok(r, body.spec_bytes()),
{
    match json_member_of(body.as_bytes(), "url") {
        Err(e) => {
            let mut m = string_of(&chars_of("JSON 无效: "));
            push_str_chars(&mut m, &chars_of(e.as_str()));
            Err(m)
        },
        Ok(f) => {
            let raw = match &f {
                JsonField::Text(t) => chars_of(t.as_str()),
                _ => Vec::new(),
            };
            assert(raw@ == text_or(f, Seq::empty()));
            let url = trim_chars(&raw);
            if url.len() == 0 {
                return Err(string_of(&chars_of("订阅链接为空")));
            }
            let nl = ['\n'];
            let cr = ['\r'];
            assert(nl@ =~= seq!['\n']);
            assert(cr@ =~= seq!['\r']);
            let single = !contains_chars(&url, &nl) && !contains_chars(&url, &cr);
            let is_http = starts_with_chars(&url, "http://") || starts_with_chars(&url, "https://");
            if single && is_http {
                Ok(SubRequest::Fetch(string_of(&url)))
            } else {
                Ok(SubRequest::Import(string_of(&url)))
            }
        },
    }
}

/// The error when an import yields no unit.
pub open spec fn no_nodes_text() -> Seq<char> {
    "未解析到可测速节点"@
}

/// Numbers imported units by position; an import without units is an error.
pub fn number_imported(nodes: &mut Vec<NodeInfo>) -> (r: Result<(), String>)
    requires
        old(nodes)@.len() <= i32::MAX,
    ensures
        old(nodes)@.len() == 0 <==> r is Err,
        r matches Err(m) ==> m@ == no_nodes_text(),
        final(nodes)@.len() == old(nodes)@.len(),
        forall|k: int| 0 <= k < final(nodes)@.len() ==> #[trigger] final(nodes)@[k].id == k && same_unit(
            final(nodes)@[k],
            old(nodes)@[k],
        ),
{
    if nodes.len() == 0 {
        return Err(string_of(&chars_of("未解析到可测速节点")));
    }
    let ghost start = nodes@;
    let mut i: usize = 0;
    while i < nodes.len()
        invariant
            i <= nodes@.len(),
            nodes@.len() == start.len() <= i32::MAX,
            forall|k: int| 0 <= k < nodes@.len() ==> same_unit(#[trigger] nodes@[k], start[k]),
            forall|k: int| 0 <= k < i ==> #[trigger] nodes@[k].id == k,
        decreases nodes@.len() - i,
    {
        let n = copy_unit(&nodes[i], i as i32);
        let ghost before = nodes@;
        nodes.set(i, n);
        assert forall|k: int| 0 <= k < nodes@.len() implies same_unit(#[trigger] nodes@[k], start[k]) by {
            if k != i {
                assert(nodes@[k] == before[k]);
            }
        }
        i += 1;
    }
    Ok(())
}

/// The reply to a file import: the import's own reply, or `error`.
pub fn file_import_reply(outcome: Result<String, String>) -> (r: String)
    ensures
        r@ == (match outcome {
            Ok(s) => s@,
            Err(_) => "error"@,
        }),
{
    match outcome {
        Ok(s) => s,
        Err(_) => string_of(&chars_of("error")),
    }
}

/// `下载订阅 HTTP ` and the status code.
pub open spec fn sub_status_text(code: int) -> Seq<char> {
    "下载订阅 HTTP "@ + crate::text::fmt_int(code)
}

/// The error for a subscription download that did not succeed (status not
/// 2xx).
pub fn sub_status_error(code: u16) -> (r: Option<String>)
    ensures
        (200 <= code < 300) <==> r is None,
        r matches Some(m) ==> m@ == sub_status_text(code as int),
{
    if 200 <= code && code < 300 {
        None
    } else {
        let mut m = string_of(&chars_of("下载订阅 HTTP "));
        push_int(&mut m, code as i64);
        Some(m)
    }
}

/// `订阅过大(N 字节，上限 10 MB)`
pub open spec fn sub_size_text(len: int) -> Seq<char> {
    "订阅过大("@ + crate::text::fmt_int(len) + " 字节，上限 10 MB)"@
}

/// The error for a subscription larger than the limit.
pub fn sub_size_error(len: u64) -> (r: Option<String>)
    ensures
        (len <= MAX_SUB_BYTES) <==> r is None,
        r matches Some(m) ==> m@ == sub_size_text(len as int),
{
    if len <= MAX_SUB_BYTES {
        None
    } else {
        let mut m = string_of(&chars_of("订阅过大("));
        crate::text::push_u64_padded(&mut m, len, 0);
        push_str_chars(&mut m, &chars_of(" 字节，上限 10 MB)"));
        Some(m)
    }
}

/// The error for a launch without units.
pub open spec fn no_units_text() -> Seq<char> {
    "无节点"@
}

/// The error for units of which none can go to the core.
pub open spec fn nothing_to_core_text() -> Seq<char> {
    "没有可交给 mihomo 的节点"@
}

/// Checks a provider set before the core is started: there must be units,
/// and some of them must have gone to a provider.
pub fn launch_check(unit_count: usize, build: &crate::sub::ProvidersBuild) -> (r: Result<(), String>)
    ensures
        unit_count == 0 ==> (r matches Err(m) && m@ == no_units_text()),
        unit_count > 0 && build.yaml_order@.len() == 0 && build.link_order@.len() == 0 ==> (r matches Err(m)
            && m@ == nothing_to_core_text()),
        unit_count > 0 && (build.yaml_order@.len() > 0 || build.link_order@.len() > 0) ==> r is Ok,
{
    if unit_count == 0 {
        return Err(string_of(&chars_of("无节点")));
    }
    if build.yaml_order.len() == 0 && build.link_order.len() == 0 {
        return Err(string_of(&chars_of("没有可交给 mihomo 的节点")));
    }
    Ok(())
}

/// A proxy as the core's provider listing reports it: its name and protocol
/// when they are strings.
#[derive(Debug)]
pub struct ProviderProxy {
    pub name: Option<String>,
    pub kind: Option<String>,
}

/// What `serde_json` reads from a provider listing: the `proxies` array's
/// `name` and `type` strings, `None` when the body is not JSON or has no such
/// array.
pub uninterp spec fn provider_listing(body: Seq<u8>) -> Option<Vec<ProviderProxy>>;

/// Parses a provider listing with `serde_json::from_slice` and reads each
/// entry of its `proxies` array.
#[verifier::external_body]
fn provider_proxies(body: &[u8]) -> (r: Option<Vec<ProviderProxy>>)
    ensures
        r == provider_listing(body@),
{
    let v: serde_json::Value = serde_json::from_slice(body).ok()?;
    let arr = v.get("proxies").and_then(|x| x.as_array())?;
    let text = |p: &serde_json::Value, k: &str| p.get(k).and_then(|x| x.as_str()).map(|x| x.to_string());
    Some(arr.iter().map(|p| ProviderProxy { name: text(p, "name"), kind: text(p, "type") }).collect())
}

/// `after` is `before` with the names and protocols of the listing given, in
/// order, to the units of `order`, as far as both reach; a missing name or
/// protocol leaves the unit's own.
pub open spec fn provider_applied(
    before: Seq<NodeInfo>,
    after: Seq<NodeInfo>,
    order: Seq<usize>,
    listing: Seq<ProviderProxy>,
) -> bool {
    let n: int = if listing.len() < order.len() { listing.len() as int } else { order.len() as int };
    &&& after.len() == before.len()
    &&& forall|j: int| 0 <= j < after.len() ==> {
        let a = #[trigger] after[j];
        let b = before[j];
        &&& a.id == b.id
        &&& a.group@ == b.group@
        &&& a.remarks@ == b.remarks@
        &&& a.server@ == b.server@
        &&& a.port == b.port
        &&& a.raw_unit@ == b.raw_unit@
        &&& a.is_link_unit == b.is_link_unit
        &&& a.proxy_str@ == last_name(j, order, listing, n, b.proxy_str@, true)
        &&& a.proxy_type@ == last_name(j, order, listing, n, b.proxy_type@, false)
    }
}

/// The name (or protocol) unit `j` ends with after the first `n` listing
/// entries are given out: the last of them addressed to `j` that has one.
pub open spec fn last_name(
    j: int,
    order: Seq<usize>,
    listing: Seq<ProviderProxy>,
    n: int,
    own: Seq<char>,
    name: bool,
) -> Seq<char>
    decreases n,
{
    if n <= 0 {
        own
    } else {
        let prev = last_name(j, order, listing, n - 1, own, name);
        let field = if name { listing[n - 1].name } else { listing[n - 1].kind };
        if order[n - 1] == j && field is Some {
            field->0@
        } else {
            prev
        }
    }
}

/// Gives the provider listing's names and protocols to the units in `order`.
pub fn apply_provider_listing(nodes: &mut Vec<NodeInfo>, order: &[usize], listing: &[ProviderProxy])
    requires
        forall|k: int| 0 <= k < order@.len() ==> #[trigger] order@[k] < old(nodes)@.len(),
    ensures
        provider_applied(old(nodes)@, final(nodes)@, order@, listing@),
{
    let n = if listing.len() < order.len() { listing.len() } else { order.len() };
    let ghost start = nodes@;
    let mut i: usize = 0;
    while i < n
        invariant
            i <= n,
            n == (if listing@.len() < order@.len() { listing@.len() } else { order@.len() }),
            nodes@.len() == start.len(),
            forall|k: int| 0 <= k < order@.len() ==> #[trigger] order@[k] < start.len(),
            forall|j: int| 0 <= j < nodes@.len() ==> {
                let a = #[trigger] nodes@[j];
                let b = start[j];
                &&& a.id == b.id
                &&& a.group@ == b.group@
                &&& a.remarks@ == b.remarks@
                &&& a.server@ == b.server@
                &&& a.port == b.port
                &&& a.raw_unit@ == b.raw_unit@
                &&& a.is_link_unit == b.is_link_unit
                &&& a.proxy_str@ == last_name(j, order@, listing@, i as int, b.proxy_str@, true)
                &&& a.proxy_type@ == last_name(j, order@, listing@, i as int, b.proxy_type@, false)
            },
        decreases n - i,
    {
        let idx = order[i];
        let mut u = copy_unit(&nodes[idx], nodes[idx].id);
        match &listing[i].name {
            Some(name) => {
                u.proxy_str = copy_string(name);
            },
            None => {},
        }
        match &listing[i].kind {
            Some(kind) => {
                u.proxy_type = copy_string(kind);
            },
            None => {},
        }
        let ghost before = nodes@;
        nodes.set(idx, u);
        assert forall|j: int| 0 <= j < nodes@.len() implies {
            let a = #[trigger] nodes@[j];
            let b = start[j];
            &&& a.id == b.id
            &&& a.group@ == b.group@
            &&& a.remarks@ == b.remarks@
            &&& a.server@ == b.server@
            &&& a.port == b.port
            &&& a.raw_unit@ == b.raw_unit@
            &&& a.is_link_unit == b.is_link_unit
            &&& a.proxy_str@ == last_name(j, order@, listing@, i + 1, b.proxy_str@, true)
            &&& a.proxy_type@ == last_name(j, order@, listing@, i + 1, b.proxy_type@, false)
        } by {
            if j != idx {
                assert(nodes@[j] == before[j]);
            }
        }
        i += 1;
    }
}

/// Reads a provider listing body and gives its names and protocols to the
/// units in `order`; a body that is no listing changes nothing.
pub fn reconcile_provider(nodes: &mut Vec<NodeInfo>, order: &[usize], body: &[u8])
    requires
        forall|k: int| 0 <= k < order@.len() ==> #[trigger] order@[k] < old(nodes)@.len(),
    ensures
        match provider_listing(body@) {
            Some(l) => provider_applied(old(nodes)@, final(nodes)@, order@, l@),
            None => final(nodes)@ == old(nodes)@,
        },
{
    if order.len() == 0 {
        proof {
            match provider_listing(body@) {
                Some(l) => {
                    assert forall|j: int| 0 <= j < nodes@.len() implies {
                        &&& nodes@[j].proxy_str@ == last_name(j, order@, l@, 0, nodes@[j].proxy_str@, true)
                        &&& nodes@[j].proxy_type@ == last_name(j, order@, l@, 0, nodes@[j].proxy_type@, false)
                    } by {}
                },
                None => {},
            }
        }
        return;
    }
    match provider_proxies(body) {
        Some(listing) => apply_provider_listing(nodes, order, &listing),
        None => {},
    }
}

/// Whether a unit counts as done in a results poll: while running, when it is
/// completed or before the current one; once stopped, only when completed.
pub open spec fn spec_result_done(running: bool, id: i32, current_id: i32, completed: Seq<i32>) -> bool {
    if running {
        completed.contains(id) || id < current_id
    } else {
        completed.contains(id)
    }
}

fn contains_id(ids: &[i32], id: i32) -> (r: bool)
    ensures
        r == ids@.contains(id),
{
    let mut i: usize = 0;
    while i < ids.len()
        invariant
            i <= ids@.len(),
            forall|k: int| 0 <= k < i ==> ids@[k] != id,
        decreases ids@.len() - i,
    {
        if ids[i] == id {
            assert(ids@[i as int] == id);
            return true;
        }
        i += 1;
    }
    false
}

/// Whether unit `id` is reported as done.
pub fn result_done(running: bool, id: i32, current_id: i32, completed: &[i32]) -> (r: bool)
    ensures
        r == spec_result_done(running, id, current_id, completed@),
{
    if running {
        contains_id(completed, id) || id < current_id
    } else {
        contains_id(completed, id)
    }
}

/// The positions of the units a results poll reports, in order: units with
/// a number that count as done.
pub open spec fn reported(ids: Seq<i32>, running: bool, current_id: i32, completed: Seq<i32>) -> Seq<usize>
    decreases ids.len(),
{
    if ids.len() == 0 {
        Seq::empty()
    } else {
        let prev = reported(ids.drop_last(), running, current_id, completed);
        let id = ids.last();
        if id >= 0 && spec_result_done(running, id, current_id, completed) {
            prev.push((ids.len() - 1) as usize)
        } else {
            prev
        }
    }
}

/// The units a results poll reports.
pub fn reported_results(ids: &[i32], running: bool, current_id: i32, completed: &[i32]) -> (r: Vec<usize>)
    ensures
        r@ == reported(ids@, running, current_id, completed@),
{
    let mut out: Vec<usize> = Vec::new();
    let mut i: usize = 0;
    while i < ids.len()
        invariant
            i <= ids@.len(),
            out@ == reported(ids@.take(i as int), running, current_id, completed@),
        decreases ids@.len() - i,
    {
        assert(ids@.take(i + 1).drop_last() =~= ids@.take(i as int));
        if ids[i] >= 0 && result_done(running, ids[i], current_id, completed) {
            out.push(i);
        }
        i += 1;
    }
    assert(ids@.take(ids@.len() as int) =~= ids@);
    out
}

/// The unit being tested, reported while running: the first with the
/// current, non-negative number.
pub open spec fn current_of(ids: Seq<i32>, running: bool, current_id: i32) -> Option<int> {
    if running && current_id >= 0 && ids.contains(current_id) {
        Some(choose|k: int| 0 <= k < ids.len() && ids[k] == current_id && forall|j: int| 0 <= j < k ==> ids[j] != current_id)
    } else {
        None
    }
}

/// The position of the unit being tested.
pub fn current_result(ids: &[i32], running: bool, current_id: i32) -> (r: Option<usize>)
    ensures
        match r {
            Some(k) => running && current_id >= 0 && k < ids@.len() && ids@[k as int] == current_id && forall|j: int|
                0 <= j < k ==> ids@[j] != current_id,
            None => !(running && current_id >= 0 && ids@.contains(current_id)),
        },
{
    if !running || current_id < 0 {
        return None;
    }
    let mut i: usize = 0;
    while i < ids.len()
        invariant
            i <= ids@.len(),
            running && current_id >= 0,
            forall|k: int| 0 <= k < i ==> ids@[k] != current_id,
        decreases ids@.len() - i,
    {
        if ids[i] == current_id {
            return Some(i);
        }
        i += 1;
    }
    None
}

/// A poll never reports a unit as done that a stopped batch did not
/// complete.
pub proof fn law_stopped_results_are_completed(ids: Seq<i32>, current_id: i32, completed: Seq<i32>, k: int)
    requires
        0 <= k < reported(ids, false, current_id, completed).len(),
        ids.len() <= usize::MAX,
    ensures
        completed.contains(ids[reported(ids, false, current_id, completed)[k] as int]),
        0 <= reported(ids, false, current_id, completed)[k] < ids.len(),
    decreases ids.len(),
{
    let r = reported(ids, false, current_id, completed);
    let prev = reported(ids.drop_last(), false, current_id, completed);
    if k < prev.len() {
        law_stopped_results_are_completed(ids.drop_last(), current_id, completed, k);
        assert(r[k] == prev[k]);
        assert(ids.drop_last()[prev[k] as int] == ids[prev[k] as int]);
    } else {
        assert(r == prev.push((ids.len() - 1) as usize));
        assert(r[k] == (ids.len() - 1) as usize);
    }
}

/// The positions of the completed units, in order: what a batch exports.
pub fn completed_positions(ids: &[i32], completed: &[i32]) -> (r: Vec<usize>)
    ensures
        r@ == reported(ids@, false, -1i32, completed@),
{
    reported_results(ids, false, -1, completed)
}

/// The protocol shown for a unit: its own, or `Unknown`.
pub fn web_type(proxy_type: &str) -> (r: String)
    ensures
        r@ == (if proxy_type@.len() == 0 { "Unknown"@ } else { proxy_type@ }),
{
    if proxy_type.is_empty() {
        string_of(&chars_of("Unknown"))
    } else {
        string_of(&chars_of(proxy_type))
    }
}

/// Whether a tested unit is online: by its latency alone in a latency-only
/// test, else also when bytes came in.
pub fn node_online(ping_only: bool, latency_ok: bool, received: u64) -> (r: bool)
    ensures
        r == (if ping_only { latency_ok } else { received > 0 || latency_ok }),
{
    if ping_only {
        latency_ok
    } else {
        received > 0 || latency_ok
    }
}

/// Where a batch stands: how many units it has, the next one to test, and
/// whether a cancellation stopped it.
#[derive(Debug)]
pub struct BatchCursor {
    pub count: usize,
    pub next: usize,
    pub stopped: bool,
}

impl BatchCursor {
    /// The cursor never passes the end.
    pub open spec fn wf(&self) -> bool {
        self.next <= self.count
    }

    /// A batch of `count` units, none tested yet.
    pub fn new(count: usize) -> (r: BatchCursor)
        ensures
            r.wf(),
            r.count == count,
            r.next == 0,
            !r.stopped,
    {
        BatchCursor { count, next: 0, stopped: false }
    }

    /// The next unit to test: none once the batch is stopped, cancelled now,
    /// or through; otherwise the units in order.
    pub fn next_unit(&mut self, cancelled: bool) -> (r: Option<usize>)
        requires
            old(self).wf(),
        ensures
            final(self).wf(),
            final(self).count == old(self).count,
            old(self).stopped || cancelled || old(self).next >= old(self).count ==> {
                &&& r is None
                &&& final(self).next == old(self).next
                &&& final(self).stopped == (old(self).stopped || cancelled)
            },
            !(old(self).stopped || cancelled || old(self).next >= old(self).count) ==> {
                &&& r == Some(old(self).next)
                &&& final(self).next == old(self).next + 1
                &&& !final(self).stopped
            },
    {
        if self.stopped || cancelled || self.next >= self.count {
            self.stopped = self.stopped || cancelled;
            return None;
        }
        let i = self.next;
        self.next = i + 1;
        Some(i)
    }

    /// A unit's test ended; a cancellation seen now stops the batch.
    pub fn unit_finished(&mut self, cancelled: bool)
        requires
            old(self).wf(),
        ensures
            final(self).wf(),
            final(self).count == old(self).count,
            final(self).next == old(self).next,
            final(self).stopped == (old(self).stopped || cancelled),
    {
        self.stopped = self.stopped || cancelled;
    }
}

/// The two places the core measures a proxy's delay: through the `GLOBAL`
/// group, and by the proxy's own name.
pub open spec fn delay_endpoints_text(name: Seq<char>) -> (Seq<char>, Seq<char>) {
    let url_q = crate::codec::pct_encode(vstd::utf8::encode_utf8(LATENCY_URL@));
    (
        "http://127.0.0.1:9990/proxies/GLOBAL/delay?timeout=8000&url="@ + url_q,
        "http://127.0.0.1:9990/proxies/"@ + crate::codec::pct_encode(vstd::utf8::encode_utf8(name))
            + "/delay?timeout=8000&url="@ + url_q,
    )
}

/// The delay endpoints for a proxy.
pub fn delay_endpoints(name: &str) -> (r: (String, String))
    ensures
        (r.0@, r.1@) == delay_endpoints_text(name@),
{
    let url_q = crate::codec::url_encode(LATENCY_URL);
    let mut a = string_of(&chars_of("http://127.0.0.1:9990/proxies/GLOBAL/delay?timeout=8000&url="));
    push_str_chars(&mut a, &chars_of(url_q.as_str()));
    let mut b = string_of(&chars_of("http://127.0.0.1:9990/proxies/"));
    push_str_chars(&mut b, &chars_of(crate::codec::url_encode(name).as_str()));
    push_str_chars(&mut b, &chars_of("/delay?timeout=8000&url="));
    push_str_chars(&mut b, &chars_of(url_q.as_str()));
    (a, b)
}

/// Whether the controller's `/version` answer shows it is up.
pub fn controller_ready(body: &str) -> (r: bool)
    ensures
        r == contains_seq(body@, "\"version\""@),
{
    contains_chars(&chars_of(body), &chars_of("\"version\""))
}

/// Whether the core answered its controller at all (any status below 500).
pub fn core_alive(status: u16) -> (r: bool)
    ensures
        r == (status < 500),
{
    status < 500
}

/// The output of `mihomo -v` that is read: standard output unless it is
/// blank, else standard error.
pub fn version_output<'a>(stdout: &'a str, stderr: &'a str) -> (r: &'a str)
    ensures
        r@ == (if trim(stdout@).len() == 0 { stderr@ } else { stdout@ }),
{
    if trim_chars(&chars_of(stdout)).len() == 0 {
        stderr
    } else {
        stdout
    }
}

/// The base name of exported history files: the safe chosen name, or the
/// entry's own name when that is empty.
pub fn export_base_name(name: &str, dest_name: &str) -> (r: String)
    ensures
        r@ == (if crate::export::replace_reserved(dest_name@).len() == 0 {
            name@
        } else {
            crate::export::replace_reserved(dest_name@)
        }),
{
    let safe = crate::export::sanitize_dest_name(dest_name);
    if safe.as_str().is_empty() {
        string_of(&chars_of(name))
    } else {
        safe
    }
}

/// How many site probes failed (recorded as 0) among `raw`.
pub open spec fn failed_probes(raw: Seq<i32>) -> int
    decreases raw.len(),
{
    if raw.len() == 0 {
        0
    } else {
        failed_probes(raw.drop_last()) + if raw.last() == 0 { 1int } else { 0int }
    }
}

/// Counts the failed site probes.
pub fn count_failed_probes(raw: &[i32; 10]) -> (r: usize)
    ensures
        r == failed_probes(raw@),
{
    let mut n: usize = 0;
    let mut i: usize = 0;
    while i < 10
        invariant
            i <= 10,
            raw@.len() == 10,
            n == failed_probes(raw@.take(i as int)),
            n <= i,
        decreases 10 - i,
    {
        assert(raw@.take(i + 1).drop_last() =~= raw@.take(i as int));
        if raw[i] == 0 {
            n += 1;
        }
        i += 1;
    }
    assert(raw@.take(10) =~= raw@);
    n
}

/// The batch part of the engine's state: whether a batch runs, its mode,
/// sort order and group label, the node under test and the nodes done.
#[derive(Debug)]
pub struct BatchFields {
    pub running: bool,
    pub ping_only: bool,
    pub sort_method: String,
    pub custom_group: String,
    pub current_id: i32,
    pub completed: Vec<i32>,
}

impl BatchFields {
    /// The state before any batch.
    pub fn new() -> (r: BatchFields)
        ensures
            !r.running && !r.ping_only && r.sort_method@.len() == 0 && r.custom_group@.len() == 0,
            r.current_id == 0,
            r.completed@.len() == 0,
    {
        BatchFields {
            running: false,
            ping_only: false,
            sort_method: String::new(),
            custom_group: String::new(),
            current_id: 0,
            completed: Vec::new(),
        }
    }

    /// A started batch: running in the given mode, order and group, with no
    /// node under test and none done.
    pub fn begin(&mut self, ping_only: bool, sort_method: String, group_label: String)
        ensures
            final(self).running,
            final(self).ping_only == ping_only,
            final(self).sort_method@ == sort_method@,
            final(self).custom_group@ == group_label@,
            final(self).current_id == -1,
            final(self).completed@.len() == 0,
    {
        self.running = true;
        self.ping_only = ping_only;
        self.sort_method = sort_method;
        self.custom_group = group_label;
        self.current_id = -1;
        self.completed = Vec::new();
    }

    /// The batch ended: not running, no node under test; the rest kept.
    pub fn finish(&mut self)
        ensures
            !final(self).running,
            final(self).current_id == -1,
            final(self).ping_only == old(self).ping_only,
            final(self).sort_method@ == old(self).sort_method@,
            final(self).custom_group@ == old(self).custom_group@,
            final(self).completed@ == old(self).completed@,
    {
        self.running = false;
        self.current_id = -1;
    }

    /// No node under test and none done (a new import, or a restart, which
    /// also stops the batch when `stop` is set); mode, order and group kept.
    pub fn clear_progress(&mut self, stop: bool)
        ensures
            final(self).running == (old(self).running && !stop),
            final(self).current_id == -1,
            final(self).completed@.len() == 0,
            final(self).ping_only == old(self).ping_only,
            final(self).sort_method@ == old(self).sort_method@,
            final(self).custom_group@ == old(self).custom_group@,
    {
        if stop {
            self.running = false;
        }
        self.current_id = -1;
        self.completed = Vec::new();
    }

    /// Node `id` is under test.
    pub fn test_node(&mut self, id: i32)
        ensures
            final(self).current_id == id,
            final(self).running == old(self).running,
            final(self).ping_only == old(self).ping_only,
            final(self).sort_method@ == old(self).sort_method@,
            final(self).custom_group@ == old(self).custom_group@,
            final(self).completed@ == old(self).completed@,
    {
        self.current_id = id;
    }

    /// Node `id` is done; a node already done is not recorded twice.
    pub fn complete(&mut self, id: i32)
        ensures
            final(self).completed@ == (if old(self).completed@.contains(id) {
                old(self).completed@
            } else {
                old(self).completed@.push(id)
            }),
            final(self).current_id == old(self).current_id,
            final(self).running == old(self).running,
            final(self).ping_only == old(self).ping_only,
            final(self).sort_method@ == old(self).sort_method@,
            final(self).custom_group@ == old(self).custom_group@,
    {
        if !contains_id(self.completed.as_slice(), id) {
            self.completed.push(id);
        }
    }
}

/// A start request never starts a second batch: while a batch runs (or its
/// task is alive) the answer is `busy`, within the cool-down it is `done`,
/// and a started batch numbers its units from 0 under one group label.
pub proof fn law_start_never_doubles(
    d: Result<StartDecision, String>,
    all: Seq<NodeInfo>,
    req: StartRequest,
    running: bool,
    batch_active: bool,
    cooling_down: bool,
)
    requires
        start_ok(d, all, req, running, batch_active, cooling_down),
    ensures
        running || batch_active ==> d matches Ok(StartDecision::Busy),
        !running && !batch_active && cooling_down ==> d matches Ok(StartDecision::Done),
        d matches Ok(StartDecision::Start { targets, group_label, .. }) ==> !running && !batch_active && !cooling_down
            && targets@.len() > 0 && forall|k: int| 0 <= k < targets@.len() ==> (#[trigger] targets@[k]).id == k
            && targets@[k].group@ == group_label@,
{
}

} // verus!
