use std::io::Write;
use node_speedtest::update::{
    binary_from_asset, check_failed, check_outcome, check_stale, download_status_error, installed_version,
    pick_release_download, CheckFailure,
};

const RELEASE: &str = r#"{"tag_name":"v1.19.29","assets":[
 {"name":"mihomo-linux-amd64-v1.19.29.gz","browser_download_url":"https://d/linux.gz"},
 {"name":"mihomo-windows-amd64-v1.19.29.zip","browser_download_url":"https://d/win.zip"},
 {"name":"mihomo-darwin-arm64-v1.19.29.gz"}]}"#;

#[test]
fn release_asset_for_the_platform() {
    let d = pick_release_download(RELEASE.as_bytes(), "linux", "x86_64").unwrap();
    assert_eq!(d.tag, "v1.19.29");
    assert_eq!(d.asset_name, "mihomo-linux-amd64-v1.19.29.gz");
    assert_eq!(d.url, "https://d/linux.gz");
    assert!(!d.zipped);
    let w = pick_release_download(RELEASE.as_bytes(), "windows", "x86_64").unwrap();
    assert!(w.zipped);
    assert_eq!(pick_release_download(RELEASE.as_bytes(), "macos", "aarch64").unwrap_err(), "asset 缺少 browser_download_url");
    assert_eq!(
        pick_release_download(RELEASE.as_bytes(), "linux", "aarch64").unwrap_err(),
        "release 资产中未找到 mihomo-linux-arm64-v1.19.29.gz"
    );
    assert_eq!(pick_release_download(RELEASE.as_bytes(), "freebsd", "x86_64").unwrap_err(), "当前平台/架构不支持自动更新 mihomo");
    assert_eq!(pick_release_download(br#"{"assets":[]}"#, "linux", "x86_64").unwrap_err(), "release 缺少 tag_name 字段");
    assert_eq!(pick_release_download(br#"{"tag_name":"v1"}"#, "linux", "x86_64").unwrap_err(), "release 缺少 assets");
    assert!(pick_release_download(b"<html>", "linux", "x86_64").unwrap_err().starts_with("解析 release JSON 失败: "));
}

#[test]
fn download_errors_carry_hints() {
    assert_eq!(
        download_status_error(504, "504 Gateway Timeout"),
        "下载返回 504 Gateway Timeout (GitHub 资产域被中间网关超时，请确认系统代理已开启)"
    );
    assert_eq!(download_status_error(403, "403 Forbidden"), "下载返回 403 Forbidden (GitHub 速率限制或资产临时不可用，稍后重试)");
    assert_eq!(download_status_error(500, "500 X"), "下载返回 500 X ");
}

#[test]
fn gzip_assets_decompress() {
    let mut e = flate2::write::GzEncoder::new(Vec::new(), flate2::Compression::default());
    e.write_all(b"core binary").unwrap();
    let gz = e.finish().unwrap();
    assert_eq!(binary_from_asset(&gz, false).unwrap(), b"core binary");
    assert!(binary_from_asset(b"not gzip", false).unwrap_err().starts_with("gz 解压失败: "));
}

#[test]
fn zip_assets_give_the_core_entry() {
    let mut buf = std::io::Cursor::new(Vec::new());
    {
        let mut z = zip::ZipWriter::new(&mut buf);
        let opts = zip::write::SimpleFileOptions::default();
        z.start_file("README.txt", opts).unwrap();
        z.write_all(b"readme").unwrap();
        z.start_file("MiHoMo-windows-amd64.exe", opts).unwrap();
        z.write_all(b"exe bytes").unwrap();
        z.finish().unwrap();
    }
    let data = buf.into_inner();
    assert_eq!(binary_from_asset(&data, true).unwrap(), b"exe bytes");
    assert!(binary_from_asset(b"nope", true).unwrap_err().starts_with("zip 格式错误: "));
    let mut buf = std::io::Cursor::new(Vec::new());
    {
        let mut z = zip::ZipWriter::new(&mut buf);
        z.start_file("other.bin", zip::write::SimpleFileOptions::default()).unwrap();
        z.write_all(b"x").unwrap();
        z.finish().unwrap();
    }
    assert_eq!(binary_from_asset(&buf.into_inner(), true).unwrap_err(), "zip 中未找到 mihomo 二进制");
}

#[test]
fn release_checks() {
    assert!(check_stale(None));
    assert!(!check_stale(Some(1_800_000)));
    assert!(check_stale(Some(1_800_001)));
    let c = check_outcome(br#"{"tag_name":"v1.19.30"}"#, "v1.19.29");
    assert_eq!(c.latest, "v1.19.30");
    assert!(c.has_update);
    assert_eq!(c.error, "");
    let c = check_outcome(br#"{"tag_name":"v1.19.29"}"#, "v1.19.29");
    assert!(!c.has_update);
    let c = check_outcome(b"oops", "v1");
    assert_eq!(c.error, "GitHub API 返回了非预期的内容");
    assert_eq!(c.latest, "");
    let c = check_outcome(br#"{}"#, "v1");
    assert_eq!(c.latest, "");
    assert!(!c.has_update);
    assert_eq!(check_failed(CheckFailure::NoResponse).error, "GitHub API 无响应(网络受限或被防火墙拦截)");
    assert_eq!(check_failed(CheckFailure::ReadFailed).error, "读取 GitHub 响应失败");
    assert_eq!(installed_version("", "v2"), "v2");
    assert_eq!(installed_version("v3", "v2"), "v3");
}
