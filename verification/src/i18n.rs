//! The texts of the program in English and in Chinese.

use vstd::prelude::*;

verus! {

/// A language of the program.
#[derive(Debug, Clone, Copy, PartialEq, Eq, Structural)]
pub enum Lang {
    En,
    Zh,
}

impl Default for Lang {
    /// English.
    fn default() -> (r: Self)
        ensures
            r == Lang::En,
    {
        Lang::En
    }
}

impl Lang {
    /// The name of the language in itself.
    pub fn name(&self) -> (r: &'static str)
        ensures
            r@ == (match *self {
                Lang::En => "English"@,
                Lang::Zh => "中文"@,
            }),
    {
        match self {
            Lang::En => "English",
            Lang::Zh => "中文",
        }
    }
}

/// A text in English and in Chinese.
pub struct T(pub &'static str, pub &'static str);

impl T {
    /// The text in a language.
    pub fn get(&self, lang: Lang) -> (r: &'static str)
        ensures
            r@ == (match lang {
                Lang::En => self.0@,
                Lang::Zh => self.1@,
            }),
    {
        match lang {
            Lang::En => self.0,
            Lang::Zh => self.1,
        }
    }
}

/// What a pair of texts says in a language.
pub open spec fn said(t: (&'static str, &'static str), lang: Lang) -> Seq<char> {
    match lang {
        Lang::En => t.0@,
        Lang::Zh => t.1@,
    }
}

/// One of a pair of texts, the one in the language.
pub fn say(t: (&'static str, &'static str), lang: Lang) -> (r: &'static str)
    ensures
        r@ == said(t, lang),
{
    T(t.0, t.1).get(lang)
}

pub const BANNER_SUBTITLE: (&'static str, &'static str) = (
    "OpenWrt Makefile Upstream Version Checker",
    "OpenWrt Makefile 上游版本检查工具",
);

// Main menu

pub const MENU_PROMPT: (&'static str, &'static str) = ("What would you like to do?", "请选择操作");

pub const MENU_RUN: (&'static str, &'static str) = ("Run check now", "立即运行检查");

pub const MENU_CONFIGURE: (&'static str, &'static str) = ("Configure settings", "修改配置");

pub const MENU_QUIT: (&'static str, &'static str) = ("Quit", "退出");

// Config labels

pub const CFG_TITLE: (&'static str, &'static str) = ("─── Configure Settings ───", "─── 配置设置 ───");

pub const CFG_PATHS: (&'static str, &'static str) = (
    "Search paths (comma-separated)",
    "搜索路径（逗号分隔）",
);

pub const CFG_JOBS: (&'static str, &'static str) = ("Parallel jobs", "并行任务数");

pub const CFG_TIMEOUT: (&'static str, &'static str) = ("HTTP timeout (seconds)", "HTTP 超时（秒）");

pub const CFG_TOKEN: (&'static str, &'static str) = (
    "GitHub API token (leave empty to keep / use GITHUB_TOKEN env)",
    "GitHub API Token（留空保持不变 / 或设置 GITHUB_TOKEN 环境变量）",
);

pub const CFG_FORMAT: (&'static str, &'static str) = ("Output format", "输出格式");

pub const CFG_OUTDIR: (&'static str, &'static str) = ("Output directory path", "输出目录路径");

pub const CFG_SKIP: (&'static str, &'static str) = (
    "Skip directory patterns (comma-separated)",
    "跳过目录模式（逗号分隔）",
);

pub const CFG_SAVED: (&'static str, &'static str) = ("configuration saved.", "配置已保存。");

// Status labels (shown in header)

pub const STATUS_PATHS: (&'static str, &'static str) = ("Search paths:", "搜索路径:");

pub const STATUS_JOBS: (&'static str, &'static str) = ("Jobs:", "并行数:");

pub const STATUS_TIMEOUT: (&'static str, &'static str) = ("Timeout:", "超时:");

pub const STATUS_OUTPUT: (&'static str, &'static str) = ("Output:", "输出路径:");

pub const STATUS_NONE: (&'static str, &'static str) = ("(none)", "（未设置）");

// Scan section

pub const SCAN_TITLE: (&'static str, &'static str) = (
    "─── Scanning for Makefiles ───",
    "─── 扫描 Makefile ───",
);

pub const SCAN_SEARCHING: (&'static str, &'static str) = (
    "Searching for Makefiles...",
    "正在搜索 Makefile...",
);

pub const SCAN_FOUND: (&'static str, &'static str) = ("Found", "找到");

pub const SCAN_MAKEFILE_S: (&'static str, &'static str) = ("Makefile(s)", "个 Makefile");

pub const SCAN_NONE: (&'static str, &'static str) = (
    "No Makefiles found in the specified paths.",
    "在指定路径中未找到 Makefile。",
);

pub const SCAN_PARSED: (&'static str, &'static str) = ("Parsed", "已解析");

pub const SCAN_VALID: (&'static str, &'static str) = (
    "valid OpenWrt package Makefile(s)",
    "个有效的 OpenWrt 包 Makefile",
);

pub const SCAN_NONE_VALID: (&'static str, &'static str) = (
    "No valid OpenWrt package Makefiles found.",
    "未找到有效的 OpenWrt 包 Makefile。",
);

pub const SCAN_PARSING: (&'static str, &'static str) = ("parsing...", "解析中...");

// Check section

pub const CHECK_ALL_PROMPT: (&'static str, &'static str) = (
    "Check all packages? (No = select subset)",
    "检查全部包？（选否可手动筛选）",
);

pub const CHECK_SELECT_PROMPT: (&'static str, &'static str) = (
    "Select packages to check (space to toggle, enter to confirm)",
    "选择要检查的包（空格切换，回车确认）",
);

pub const CHECK_PROGRESS: (&'static str, &'static str) = ("parallel jobs...", "并行任务...");

pub const CHECK_CHECKING: (&'static str, &'static str) = ("checking", "正在检查");

pub const CHECK_UPSTREAM_TITLE: (&'static str, &'static str) = (
    "Checking package(s) upstream with",
    "正在检查包的上游版本，并行数",
);

// Table headers

pub const TBL_PACKAGE: (&'static str, &'static str) = ("Package", "包名");

pub const TBL_CURRENT: (&'static str, &'static str) = ("Current", "当前版本");

pub const TBL_LATEST: (&'static str, &'static str) = ("Latest", "最新版本");

pub const TBL_STATUS: (&'static str, &'static str) = ("Status", "状态");

pub const TBL_TAG_COMMIT: (&'static str, &'static str) = ("Latest Tag / Commit", "最新 Tag / Commit");

pub const TBL_BACKEND: (&'static str, &'static str) = ("Backend", "来源");

pub const TBL_NOTE: (&'static str, &'static str) = ("Note", "备注");

// Status values

pub const STATUS_OUTDATED: (&'static str, &'static str) = ("OUTDATED", "有更新");

pub const STATUS_OK: (&'static str, &'static str) = ("OK", "最新");

pub const STATUS_UNKNOWN: (&'static str, &'static str) = ("?", "?");

pub const STATUS_FORMAT_MISMATCH: (&'static str, &'static str) = ("FORMAT?", "格式不一致");

pub const STATUS_NEWER: (&'static str, &'static str) = ("NEWER", "高于上游");

// Summary

pub const SUMMARY_ALL_OK: (&'static str, &'static str) = (
    "All packages are up-to-date!",
    "所有包均为最新版本！",
);

pub const SUMMARY_OUTDATED: (&'static str, &'static str) = ("Outdated packages:", "有更新的包：");

pub const SUMMARY_CHECKED: (&'static str, &'static str) = ("packages checked:", "个包已检查：");

pub const SUMMARY_OUTDATED_CNT: (&'static str, &'static str) = ("outdated", "个有更新");

pub const SUMMARY_OK_CNT: (&'static str, &'static str) = ("up-to-date", "个已最新");

pub const SUMMARY_UNKNOWN_CNT: (&'static str, &'static str) = ("unknown", "个未知");

pub const SUMMARY_FORMAT_MISMATCH_CNT: (&'static str, &'static str) = ("format-mismatch", "个格式不一致");

pub const SUMMARY_NEWER_CNT: (&'static str, &'static str) = ("newer than upstream", "个高于上游");

// Save

pub const SAVE_XLSX: (&'static str, &'static str) = ("Saved XLSX:", "已保存 XLSX：");

pub const SAVE_CSV: (&'static str, &'static str) = ("Saved CSV:", "已保存 CSV：");

pub const SAVE_PROMPT: (&'static str, &'static str) = ("Save report to file?", "是否将报告保存到文件？");

pub const SAVE_DIR_PROMPT: (&'static str, &'static str) = ("Output directory", "输出目录");

// Spreadsheet sheet name

pub const SHEET_NAME: (&'static str, &'static str) = ("Version Report", "版本报告");

// Spreadsheet column headers

pub const HDR_PKG_NAME: (&'static str, &'static str) = ("Package Name", "包名");

pub const HDR_DIRECTORY: (&'static str, &'static str) = ("Directory", "目录");

pub const HDR_CURRENT: (&'static str, &'static str) = ("Current Version", "当前版本");

pub const HDR_LATEST: (&'static str, &'static str) = ("Latest Version", "最新版本");

pub const HDR_STATUS: (&'static str, &'static str) = ("Status", "状态");

pub const HDR_TAG_COMMIT: (&'static str, &'static str) = ("Latest Tag / Commit", "最新 Tag / Commit");

pub const HDR_BACKEND: (&'static str, &'static str) = ("Backend", "来源");

pub const HDR_COMMIT_SHA: (&'static str, &'static str) = ("Latest Commit SHA", "最新 Commit SHA");

pub const HDR_UPSTREAM_URL: (&'static str, &'static str) = ("Upstream URL", "上游 URL");

pub const HDR_NOTE: (&'static str, &'static str) = ("Note / Error", "备注 / 错误");

pub const HDR_PATH: (&'static str, &'static str) = ("Makefile Path", "Makefile 路径");

// Snapshot / changed-only

pub const SNAP_CHANGED_ONLY_PROMPT: (&'static str, &'static str) = (
    "Show changed packages only (compare with last run snapshot)?",
    "只显示有变化的包（与上次快照对比）？",
);

pub const SNAP_NO_CHANGES: (&'static str, &'static str) = (
    "No changes detected since last snapshot.",
    "与上次快照相比没有变化。",
);

pub const SNAP_NEW_RUN: (&'static str, &'static str) = (
    "(First run, no snapshot yet — showing all results)",
    "（首次运行，尚无快照，显示全部结果）",
);

pub const SNAP_SAVED: (&'static str, &'static str) = ("Snapshot updated.", "快照已更新。");

pub const SNAP_CHANGED_COUNT: (&'static str, &'static str) = (
    "changed since last run:",
    "相比上次有变化：",
);

// Hash mismatch

pub const TBL_HASH: (&'static str, &'static str) = ("Hash", "哈希");

pub const HDR_HASH_STATUS: (&'static str, &'static str) = ("Hash Status", "哈希状态");

pub const HASH_MISMATCH: (&'static str, &'static str) = ("⚠ MISMATCH", "⚠ 哈希不符");

pub const HASH_OK: (&'static str, &'static str) = ("✓", "✓");

pub const HASH_UNCHECKED: (&'static str, &'static str) = ("-", "-");

pub const SUMMARY_HASH_MISMATCH: (&'static str, &'static str) = (
    "packages with PKG_HASH mismatch (possible tampering!):",
    "个包 PKG_HASH 不匹配（可能被篡改！）：",
);

// Configure extras

pub const CFG_RETRY: (&'static str, &'static str) = ("Max retries on HTTP errors", "HTTP 错误最大重试次数");

pub const CFG_SKIP_PKGS: (&'static str, &'static str) = (
    "Skip package names (comma-separated, exact match)",
    "跳过的包名（逗号分隔，精确匹配）",
);

pub const CFG_PKG_RULES_TITLE: (&'static str, &'static str) = (
    "─── Per-Package Rules ───",
    "─── 包级规则 ───",
);

pub const CFG_PKG_RULES_LIST: (&'static str, &'static str) = (
    "Currently configured pkg_rules (edit config.toml directly for full control):",
    "已配置的包级规则（完整编辑请直接修改 config.toml）：",
);

pub const CFG_PKG_RULES_NONE: (&'static str, &'static str) = ("(none configured)", "（暂无配置）");

pub const CFG_PKG_RULES_HINT: (&'static str, &'static str) = (
    "Tip: add rules in config.toml under [pkg_rules.<pkg_name>]\n  Available fields: ignore_regex, min_version, max_version, strip_prefix, strip_suffix, include_prerelease, url_regex_url, url_regex_pattern",
    "提示：在 config.toml 的 [pkg_rules.<包名>] 下添加规则\n  可用字段：ignore_regex, min_version, max_version, strip_prefix, strip_suffix, include_prerelease, url_regex_url, url_regex_pattern",
);

// Pre-release global toggle

pub const CFG_PRERELEASE: (&'static str, &'static str) = (
    "Include pre-release versions globally (alpha/beta/rc/dev)",
    "全局包含预发布版本（alpha/beta/rc/dev）",
);

pub const CFG_PRERELEASE_NOTE: (&'static str, &'static str) = (
    "  (per-package override: set include_prerelease=true under [pkg_rules.<name>] in config.toml)",
    "  （单包覆盖：在 config.toml 的 [pkg_rules.<包名>] 下设置 include_prerelease=true）",
);

pub const SECONDS_SUFFIX: (&'static str, &'static str) = ("s", "秒");

// Configure: dl_path and hash fetch

pub const CFG_DL_PATH: (&'static str, &'static str) = (
    "Source download directory (e.g. /path/to/openwrt/dl, leave empty to disable save)",
    "源码下载保存路径（如 /path/to/openwrt/dl，留空不保存）",
);

pub const CFG_FETCH_HASH: (&'static str, &'static str) = (
    "Fetch upstream tarball SHA-256 hash for outdated packages?",
    "对有更新的包下载上游源码并计算 SHA-256？",
);

// Post-check: format-mismatch notice

pub const FORMAT_MISMATCH_HEADER: (&'static str, &'static str) = (
    "─── Version format mismatch (skipped from auto-update) ───",
    "─── 版本格式不一致（已跳过自动更新） ───",
);

pub const FORMAT_MISMATCH_NOTE: (&'static str, &'static str) = (
    "current and latest use incompatible versioning schemes — manual review required",
    "当前版本与最新版本格式不兼容，需人工检查后再更新",
);

// Post-check: outdated packages action menu

pub const OUTDATED_HEADER: (&'static str, &'static str) = (
    "─── Outdated packages ───",
    "─── 有更新的包 ───",
);

pub const OUTDATED_SELECT_ALL_PROMPT: (&'static str, &'static str) = (
    "Select all outdated packages? (No = choose manually)",
    "选择全部有更新的包？（否 = 手动勾选）",
);

pub const OUTDATED_SELECT_MANUAL_PROMPT: (&'static str, &'static str) = (
    "Select packages  [space = toggle, a = select all, enter = confirm]",
    "勾选要操作的包  [空格切换, a 全选, 回车确认]",
);

pub const OUTDATED_ACTION_PROMPT: (&'static str, &'static str) = (
    "What to do with the selected packages?",
    "对已选包执行什么操作？",
);

pub const OUTDATED_ACTION_HASH: (&'static str, &'static str) = (
    "① Fetch upstream commit & SHA-256 only  (no file changes)",
    "① 仅获取上游 commit 和 SHA-256  （不修改文件）",
);

pub const OUTDATED_ACTION_UPDATE: (&'static str, &'static str) = (
    "② Update Makefile only  (PKG_VERSION; skip hash if not yet fetched)",
    "② 仅更新 Makefile  （只写 PKG_VERSION；未获取哈希则跳过 PKG_HASH）",
);

pub const OUTDATED_ACTION_BOTH: (&'static str, &'static str) = (
    "③ Fetch hash THEN update Makefile  (PKG_VERSION + PKG_HASH)",
    "③ 先获取哈希再更新 Makefile  （同时写入 PKG_VERSION 和 PKG_HASH）",
);

pub const OUTDATED_ACTION_SKIP: (&'static str, &'static str) = ("④ Skip — go back", "④ 跳过，返回");

// Hash fetch progress

pub const HASH_FETCH_TITLE: (&'static str, &'static str) = (
    "─── Step 1 / 2 : Fetching upstream commit & SHA-256 ───",
    "─── 第 1 步 / 共 2 步：获取上游 commit 和 SHA-256 ───",
);

pub const HASH_FETCH_TITLE_ONLY: (&'static str, &'static str) = (
    "─── Fetching upstream commit & SHA-256 ───",
    "─── 获取上游 commit 和 SHA-256 ───",
);

pub const HASH_FETCH_NO_URL: (&'static str, &'static str) = (
    "no source URL — skipped",
    "无源码 URL，跳过",
);

pub const HASH_FETCH_NO_FILE: (&'static str, &'static str) = (
    "no source filename — skipped",
    "无源码文件名，跳过",
);

pub const HASH_FETCH_OK: (&'static str, &'static str) = ("hash fetched:", "哈希获取成功:");

pub const HASH_FETCH_ERR: (&'static str, &'static str) = ("hash error:", "哈希获取失败:");

pub const COMMIT_FETCH_OK: (&'static str, &'static str) = ("latest commit:", "最新 commit:");

pub const COMMIT_FETCH_ERR: (&'static str, &'static str) = ("commit error:", "commit 获取失败:");

// Makefile update

pub const UPDATE_TITLE: (&'static str, &'static str) = (
    "─── Step 2 / 2 : Updating Makefiles ───",
    "─── 第 2 步 / 共 2 步：更新 Makefile ───",
);

pub const UPDATE_TITLE_ONLY: (&'static str, &'static str) = (
    "─── Updating Makefiles ───",
    "─── 更新 Makefile ───",
);

pub const UPDATE_CONFIRM: (&'static str, &'static str) = (
    "Proceed to update the selected Makefile(s)?",
    "确认更新以上选中的 Makefile？",
);

pub const UPDATE_OK: (&'static str, &'static str) = ("updated, changed:", "已更新，修改字段:");

pub const UPDATE_ERR: (&'static str, &'static str) = ("update error:", "更新失败:");

pub const UPDATE_BAK: (&'static str, &'static str) = ("backup written to", "备份已写入");

pub const UPDATE_NOTHING: (&'static str, &'static str) = (
    "nothing to update (no new version/hash available)",
    "无可更新内容（缺少版本或哈希）",
);

pub const LANG_SELECT_PROMPT: &'static str = "Language / 语言";

} // verus!
