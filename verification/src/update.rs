//! Installing a core release: reading the release description, choosing the
//! asset for the platform, and taking the core binary out of the archive.

use std::io::Read;
use vstd::prelude::*;

use crate::host::ascii_lower;
use crate::json::JsonField;
use crate::text::{chars_of, contains_chars, contains_seq, fmt_int, push_str_chars, str_eq, string_of};
use crate::version::{asset_kind, mihomo_asset_name};

verus! {

/// An asset of a release: its name and download address, when strings.
#[derive(Debug)]
pub struct ReleaseAsset {
    pub name: Option<String>,
    pub url: Option<String>,
}

/// What a release description holds: its `tag_name` member and its `assets`
/// array (`None` when missing or not an array).
#[derive(Debug)]
pub struct ReleaseInfo {
    pub tag: JsonField,
    pub assets: Option<Vec<ReleaseAsset>>,
}

/// What `serde_json` reads from a release description: the parser's message
/// when it is not JSON.
pub uninterp spec fn release_of(body: Seq<u8>) -> Result<ReleaseInfo, String>;

/// Parses a release description with `serde_json::from_slice` and reads its
/// `tag_name`, and the `name` and `browser_download_url` of each asset.
#[verifier::external_body]
fn release_info(body: &[u8]) -> (r: Result<ReleaseInfo, String>)
    ensures
        r == release_of(body@),
{
    let v: serde_json::Value = serde_json::from_slice(body).map_err(|e| e.to_string())?;
    let text = |p: &serde_json::Value, k: &str| p.get(k).and_then(|x| x.as_str()).map(|x| x.to_string());
    let tag = match v.get("tag_name") { None => JsonField::Absent, Some(serde_json::Value::String(s)) => JsonField::Text(s.clone()), Some(_) => JsonField::Other };
    let assets = v.get("assets").and_then(|x| x.as_array()).map(|a| a.iter().map(|p| ReleaseAsset { name: text(p, "name"), url: text(p, "browser_download_url") }).collect());
    Ok(ReleaseInfo { tag, assets })
}

/// The download chosen from a release.
#[derive(Debug)]
pub struct ReleaseDownload {
    pub tag: String,
    pub asset_name: String,
    pub url: String,
    pub zipped: bool,
}

/// The first asset with the given name.
pub open spec fn asset_named(assets: Seq<ReleaseAsset>, name: Seq<char>) -> Option<int>
    decreases assets.len(),
{
    if assets.len() == 0 {
        None
    } else {
        match asset_named(assets.drop_last(), name) {
            Some(k) => Some(k),
            None => if assets.last().name matches Some(n) && n@ == name {
                Some(assets.len() - 1)
            } else {
                None
            },
        }
    }
}

proof fn lemma_asset_named(assets: Seq<ReleaseAsset>, name: Seq<char>, k: int)
    requires
        0 <= k <= assets.len(),
        asset_named(assets.take(k), name) is Some,
    ensures
        asset_named(assets, name) == asset_named(assets.take(k), name),
    decreases assets.len() - k,
{
    if k < assets.len() {
        assert(assets.take(k + 1).drop_last() =~= assets.take(k));
        lemma_asset_named(assets, name, k + 1);
    } else {
        assert(assets.take(k) =~= assets);
    }
}

proof fn lemma_asset_named_bounds(assets: Seq<ReleaseAsset>, name: Seq<char>)
    ensures
        asset_named(assets, name) matches Some(k) ==> 0 <= k < assets.len() && (assets[k].name matches Some(
            n,
        ) && n@ == name),
    decreases assets.len(),
{
    if assets.len() > 0 {
        lemma_asset_named_bounds(assets.drop_last(), name);
    }
}

/// `解析 release JSON 失败: ` and the parser's message.
pub open spec fn bad_release_text(e: Seq<char>) -> Seq<char> {
    "解析 release JSON 失败: "@ + e
}

/// `release 资产中未找到 ` and the asset name.
pub open spec fn asset_missing_text(name: Seq<char>) -> Seq<char> {
    "release 资产中未找到 "@ + name
}

/// `d` is the download a release description gives for the platform: the
/// asset named for the platform and tag, with the checks in this order:
/// JSON, tag, assets, platform, asset, address.
pub open spec fn download_ok(d: Result<ReleaseDownload, String>, body: Seq<u8>, os: Seq<char>, arch: Seq<char>) -> bool {
    match release_of(body) {
        Err(e) => d matches Err(m) && m@ == bad_release_text(e@),
        Ok(info) => match info.tag {
            JsonField::Text(tag) => match info.assets {
                None => d matches Err(m) && m@ == "release 缺少 assets"@,
                Some(assets) => match asset_kind(os, arch) {
                    None => d matches Err(m) && m@ == "当前平台/架构不支持自动更新 mihomo"@,
                    Some((prefix, zipped)) => {
                        let target = prefix + tag@ + (if zipped { ".zip"@ } else { ".gz"@ });
                        match asset_named(assets@, target) {
                            None => d matches Err(m) && m@ == asset_missing_text(target),
                            Some(k) => match assets@[k].url {
                                None => d matches Err(m) && m@ == "asset 缺少 browser_download_url"@,
                                Some(u) => d matches Ok(r) && r.tag@ == tag@ && r.asset_name@ == target && r.url@ == u@
                                    && r.zipped == zipped,
                            },
                        }
                    },
                },
            },
            _ => d matches Err(m) && m@ == "release 缺少 tag_name 字段"@,
        },
    }
}

fn copy_string(s: &String) -> (r: String)
    ensures
        r@ == s@,
{
    string_of(&chars_of(s.as_str()))
}

/// Chooses the core download for the platform from a release description.
#[verifier::loop_isolation(false)]
pub fn pick_release_download(body: &[u8], os: &str, arch: &str) -> (d: Result<ReleaseDownload, String>)
    ensures
        download_ok(d, body@, os@, arch@),
{
    let info = match release_info(body) {
        Err(e) => {
            let mut m = string_of(&chars_of("解析 release JSON 失败: "));
            push_str_chars(&mut m, &chars_of(e.as_str()));
            return Err(m);
        },
        Ok(i) => i,
    };
    let tag = match &info.tag {
        JsonField::Text(t) => copy_string(t),
        _ => {
            return Err(string_of(&chars_of("release 缺少 tag_name 字段")));
        },
    };
    let assets = match &info.assets {
        None => {
            return Err(string_of(&chars_of("release 缺少 assets")));
        },
        Some(a) => a,
    };
    let (target, zipped) = match mihomo_asset_name(os, arch, tag.as_str()) {
        None => {
            return Err(string_of(&chars_of("当前平台/架构不支持自动更新 mihomo")));
        },
        Some(x) => x,
    };
    proof {
        reveal_strlit(".zip");
        reveal_strlit(".gz");
    }
    proof {
        lemma_asset_named_bounds(assets@, target@);
    }
    let mut i: usize = 0;
    while i < assets.len()
        invariant
            i <= assets@.len(),
            asset_named(assets@.take(i as int), target@) is None,
        decreases assets@.len() - i,
    {
        assert(assets@.take(i + 1).drop_last() =~= assets@.take(i as int));
        let hit = match &assets[i].name {
            Some(n) => str_eq(n.as_str(), target.as_str()),
            None => false,
        };
        if hit {
            proof {
                lemma_asset_named(assets@, target@, i + 1);
            }
            return match &assets[i].url {
                None => Err(string_of(&chars_of("asset 缺少 browser_download_url"))),
                Some(u) => Ok(ReleaseDownload { tag, asset_name: target, url: copy_string(u), zipped }),
            };
        }
        i += 1;
    }
    assert(assets@.take(i as int) =~= assets@);
    let mut m = string_of(&chars_of("release 资产中未找到 "));
    push_str_chars(&mut m, &chars_of(target.as_str()));
    Err(m)
}

/// The hint added to a failed download.
pub open spec fn download_hint(code: int) -> Seq<char> {
    if code == 504 {
        "(GitHub 资产域被中间网关超时，请确认系统代理已开启)"@
    } else if code == 403 {
        "(GitHub 速率限制或资产临时不可用，稍后重试)"@
    } else {
        Seq::empty()
    }
}

/// The error for a failed asset download: `下载返回 `, the status line and a
/// hint for the usual causes.
pub fn download_status_error(code: u16, status: &str) -> (r: String)
    ensures
        r@ == "下载返回 "@ + status@ + seq![' '] + download_hint(code as int),
{
    let mut m = string_of(&chars_of("下载返回 "));
    push_str_chars(&mut m, &chars_of(status));
    crate::text::push_char(&mut m, ' ');
    if code == 504 {
        push_str_chars(&mut m, &chars_of("(GitHub 资产域被中间网关超时，请确认系统代理已开启)"));
    } else if code == 403 {
        push_str_chars(&mut m, &chars_of("(GitHub 速率限制或资产临时不可用，稍后重试)"));
    } else {
        assert(m@ =~= m@ + Seq::<char>::empty());
    }
    m
}

/// An entry of a zip archive as listed: whether it is a file, and its name.
#[derive(Debug)]
pub struct ZipEntry {
    pub is_file: bool,
    pub name: String,
}

/// What the `zip` crate lists of an archive: the opening error, or for each
/// entry its header or the error reading it.
pub uninterp spec fn zip_listing(data: Seq<u8>) -> Result<Vec<Result<ZipEntry, String>>, String>;

/// Opens the archive with `zip::ZipArchive::new` and reads each entry's
/// header with `by_index`.
#[verifier::external_body]
fn zip_entries(data: &[u8]) -> (r: Result<Vec<Result<ZipEntry, String>>, String>)
    ensures
        r == zip_listing(data@),
{
    let mut a = zip::ZipArchive::new(std::io::Cursor::new(data)).map_err(|e| e.to_string())?;
    Ok((0..a.len()).map(|i| a.by_index(i).map(|e| ZipEntry { is_file: e.is_file(), name: e.name().to_string() }).map_err(|e| e.to_string())).collect())
}

/// What the `zip` crate decompresses from entry `i` of an archive.
pub uninterp spec fn zip_entry_data(data: Seq<u8>, i: int) -> Result<Vec<u8>, String>;

/// Opens the archive and reads entry `i` to its end.
#[verifier::external_body]
fn zip_read_entry(data: &[u8], i: usize) -> (r: Result<Vec<u8>, String>)
    ensures
        r == zip_entry_data(data@, i as int),
{
    let mut a = zip::ZipArchive::new(std::io::Cursor::new(data)).map_err(|e| e.to_string())?;
    let mut e = a.by_index(i).map_err(|e| e.to_string())?;
    let mut v = Vec::new();
    e.read_to_end(&mut v).map_err(|e| e.to_string())?;
    Ok(v)
}

/// What `flate2` decompresses from a gzip stream.
pub uninterp spec fn gunzip_data(data: Seq<u8>) -> Result<Vec<u8>, String>;

/// Decompresses a gzip stream with `flate2::read::GzDecoder`.
#[verifier::external_body]
fn gunzip(data: &[u8]) -> (r: Result<Vec<u8>, String>)
    ensures
        r == gunzip_data(data@),
{
    let mut v = Vec::new();
    flate2::read::GzDecoder::new(data).read_to_end(&mut v).map_err(|e| e.to_string())?;
    Ok(v)
}

/// The entry that holds the core: the first file whose name, ASCII
/// lower-cased, contains `mihomo`; an unreadable entry before it stops the
/// search.
pub open spec fn core_entry(es: Seq<Result<ZipEntry, String>>) -> Option<Result<int, (int, Seq<char>)>>
    decreases es.len(),
{
    if es.len() == 0 {
        None
    } else {
        match es[0] {
            Err(e) => Some(Err((0, e@))),
            Ok(z) => if z.is_file && contains_seq(ascii_lower(z.name@), "mihomo"@) {
                Some(Ok(0))
            } else {
                match core_entry(es.skip(1)) {
                    None => None,
                    Some(Ok(k)) => Some(Ok(k + 1)),
                    Some(Err((k, e))) => Some(Err((k + 1, e))),
                }
            },
        }
    }
}

/// `读取 zip 条目 N 失败: ` and the error.
pub open spec fn entry_error_text(i: int, e: Seq<char>) -> Seq<char> {
    "读取 zip 条目 "@ + fmt_int(i) + " 失败: "@ + e
}

/// `b` is the core binary of a downloaded asset: the gzip stream
/// decompressed, or the core entry of the zip archive; each failure with its
/// message.
pub open spec fn binary_ok(b: Result<Vec<u8>, String>, raw: Seq<u8>, zipped: bool) -> bool {
    if !zipped {
        match gunzip_data(raw) {
            Ok(v) => b matches Ok(x) && x@ == v@,
            Err(e) => b matches Err(m) && m@ == "gz 解压失败: "@ + e@,
        }
    } else {
        match zip_listing(raw) {
            Err(e) => b matches Err(m) && m@ == "zip 格式错误: "@ + e@,
            Ok(es) => match core_entry(es@) {
                None => b matches Err(m) && m@ == "zip 中未找到 mihomo 二进制"@,
                Some(Err((i, e))) => b matches Err(m) && m@ == entry_error_text(i, e),
                Some(Ok(i)) => match zip_entry_data(raw, i) {
                    Ok(v) => b matches Ok(x) && x@ == v@,
                    Err(e) => b matches Err(m) && m@ == "解压条目失败: "@ + e@,
                },
            },
        }
    }
}

fn prefixed(p: &str, e: &str) -> (r: String)
    ensures
        r@ == p@ + e@,
{
    let mut m = string_of(&chars_of(p));
    push_str_chars(&mut m, &chars_of(e));
    m
}

/// Takes the core binary out of a downloaded asset.
#[verifier::loop_isolation(false)]
pub fn binary_from_asset(raw: &[u8], zipped: bool) -> (b: Result<Vec<u8>, String>)
    ensures
        binary_ok(b, raw@, zipped),
{
    if !zipped {
        return match gunzip(raw) {
            Ok(v) => Ok(v),
            Err(e) => Err(prefixed("gz 解压失败: ", e.as_str())),
        };
    }
    let es = match zip_entries(raw) {
        Err(e) => {
            return Err(prefixed("zip 格式错误: ", e.as_str()));
        },
        Ok(es) => es,
    };
    let needle = chars_of("mihomo");
    let mut i: usize = 0;
    assert(es@.skip(0) =~= es@);
    while i < es.len()
        invariant
            i <= es@.len(),
            needle@ == "mihomo"@,
            core_entry(es@) == (match core_entry(es@.skip(i as int)) {
                None => None,
                Some(Ok(k)) => Some(Ok(k + i)),
                Some(Err((k, e))) => Some(Err((k + i, e))),
            }),
        decreases es@.len() - i,
    {
        assert(es@.skip(i as int).skip(1) =~= es@.skip(i + 1));
        assert(es@.skip(i as int)[0] == es@[i as int]);
        match &es[i] {
            Err(e) => {
                let mut m = string_of(&chars_of("读取 zip 条目 "));
                crate::text::push_u64_padded(&mut m, i as u64, 0);
                push_str_chars(&mut m, &chars_of(" 失败: "));
                push_str_chars(&mut m, &chars_of(e.as_str()));
                return Err(m);
            },
            Ok(z) => {
                let lower = crate::host::ascii_lower_chars(&chars_of(z.name.as_str()));
                if z.is_file && contains_chars(&lower, &needle) {
                    return match zip_read_entry(raw, i) {
                        Ok(v) => Ok(v),
                        Err(e) => Err(prefixed("解压条目失败: ", e.as_str())),
                    };
                }
            },
        }
        i += 1;
    }
    Err(string_of(&chars_of("zip 中未找到 mihomo 二进制")))
}

/// The version reported after installing: the one the binary prints, else
/// the release tag.
pub fn installed_version(verified: &str, tag: &str) -> (r: String)
    ensures
        r@ == (if verified@.len() == 0 { tag@ } else { verified@ }),
{
    if verified.is_empty() {
        string_of(&chars_of(tag))
    } else {
        string_of(&chars_of(verified))
    }
}

/// How long an update check stays fresh, in milliseconds.
pub const CHECK_TTL_MS: u64 = 1800000;

/// Whether a cached check is stale: never made, or older than the TTL.
pub fn check_stale(age_ms: Option<u64>) -> (r: bool)
    ensures
        r == (match age_ms {
            Some(a) => a > CHECK_TTL_MS,
            None => true,
        }),
{
    match age_ms {
        Some(a) => a > CHECK_TTL_MS,
        None => true,
    }
}

/// The outcome of a release check: the latest tag, the error shown, and
/// whether the latest is newer than the local version.
#[derive(Debug)]
pub struct CheckOutcome {
    pub latest: String,
    pub error: String,
    pub has_update: bool,
}

/// Why a release check got no description.
pub enum CheckFailure {
    /// The request got no response.
    NoResponse,
    /// The response body could not be read.
    ReadFailed,
}

/// The outcome of a check that got no description.
pub fn check_failed(f: CheckFailure) -> (r: CheckOutcome)
    ensures
        r.latest@.len() == 0,
        !r.has_update,
        r.error@ == (match f {
            CheckFailure::NoResponse => "GitHub API 无响应(网络受限或被防火墙拦截)"@,
            CheckFailure::ReadFailed => "读取 GitHub 响应失败"@,
        }),
{
    let e = match f {
        CheckFailure::NoResponse => string_of(&chars_of("GitHub API 无响应(网络受限或被防火墙拦截)")),
        CheckFailure::ReadFailed => string_of(&chars_of("读取 GitHub 响应失败")),
    };
    CheckOutcome { latest: String::new(), error: e, has_update: false }
}

/// `r` is the outcome of a check whose description is `body`: a body that is
/// not JSON is reported; otherwise the tag (empty when missing) and whether
/// it is newer than `local`.
pub open spec fn check_ok(r: CheckOutcome, body: Seq<u8>, local: Seq<char>) -> bool {
    match crate::json::json_member(body, "tag_name"@) {
        Err(_) => r.latest@.len() == 0 && r.error@ == "GitHub API 返回了非预期的内容"@ && !r.has_update,
        Ok(f) => {
            let latest = crate::json::text_or(f, Seq::empty());
            &&& r.latest@ == latest
            &&& r.error@.len() == 0
            &&& r.has_update == (latest.len() > 0 && local.len() > 0 && crate::version::spec_compare_version(
                latest,
                local,
            ) > 0)
        },
    }
}

/// Reads a release check's answer.
pub fn check_outcome(body: &[u8], local: &str) -> (r: CheckOutcome)
    ensures
        check_ok(r, body@, local@),
{
    match crate::json::json_member_of(body, "tag_name") {
        Err(_) => CheckOutcome {
            latest: String::new(),
            error: string_of(&chars_of("GitHub API 返回了非预期的内容")),
            has_update: false,
        },
        Ok(f) => {
            let latest = crate::json::text_or_default(&f, "");
            proof {
                reveal_strlit("");
            }
            assert(""@ =~= Seq::<char>::empty());
            let has = crate::version::update_available(latest.as_str(), local);
            CheckOutcome { latest, error: String::new(), has_update: has }
        },
    }
}

} // verus!
