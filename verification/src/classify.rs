//! The source classifier: map an absolute path to the semantic origin of the
//! file — a chat application's store, a standard user folder, or unknown —
//! with the scan scope's intent taking precedence over path shape.

use vstd::prelude::*;
use crate::text::{contains_seq, contains_sub, ends_with_seq, ends_with_sub};

verus! {

/// Whether a project scans the fixed default roots or only its own folders.
#[derive(Clone, Copy, Debug, PartialEq, Eq, Structural)]
pub enum ScanScope {
    All,
    Custom,
}

/// The scope a stored label denotes; anything but the custom marker means
/// the full default root set.
pub open spec fn spec_scan_scope(label: Seq<char>) -> ScanScope {
    if label == "CUSTOM"@ {
        ScanScope::Custom
    } else {
        ScanScope::All
    }
}

/// Parse a scan-scope label.
pub fn scan_scope_of(label: &str) -> (r: ScanScope)
    ensures
        r == spec_scan_scope(label@),
{
    if crate::text::str_eq(label, "CUSTOM") {
        ScanScope::Custom
    } else {
        ScanScope::All
    }
}

/// The semantic origin assigned to a discovered file.
#[derive(Clone, Copy, Debug, PartialEq, Eq, Structural)]
pub enum SourceKind {
    WeChatMessage,
    WeChatFile,
    WeComMessage,
    WeComFile,
    DingTalkMessage,
    DingTalkFile,
    Downloads,
    Desktop,
    Documents,
    CustomSpecified,
    Other,
}

impl SourceKind {
    /// The tag stored in the catalog for each origin.
    pub open spec fn spec_tag(self) -> Seq<char> {
        match self {
            SourceKind::WeChatMessage => "WECHAT_MESSAGE"@,
            SourceKind::WeChatFile => "WECHAT_FILE"@,
            SourceKind::WeComMessage => "WECOM_MESSAGE"@,
            SourceKind::WeComFile => "WECOM_FILE"@,
            SourceKind::DingTalkMessage => "DINGTALK_MESSAGE"@,
            SourceKind::DingTalkFile => "DINGTALK_FILE"@,
            SourceKind::Downloads => "DOWNLOADS"@,
            SourceKind::Desktop => "DESKTOP"@,
            SourceKind::Documents => "DOCUMENTS"@,
            SourceKind::CustomSpecified => "CUSTOM_SPECIFIED"@,
            SourceKind::Other => "OTHER"@,
        }
    }

    /// The tag, as a string.
    pub fn as_str(&self) -> (r: &'static str)
        ensures
            r@ == self.spec_tag(),
    {
        match self {
            SourceKind::WeChatMessage => "WECHAT_MESSAGE",
            SourceKind::WeChatFile => "WECHAT_FILE",
            SourceKind::WeComMessage => "WECOM_MESSAGE",
            SourceKind::WeComFile => "WECOM_FILE",
            SourceKind::DingTalkMessage => "DINGTALK_MESSAGE",
            SourceKind::DingTalkFile => "DINGTALK_FILE",
            SourceKind::Downloads => "DOWNLOADS",
            SourceKind::Desktop => "DESKTOP",
            SourceKind::Documents => "DOCUMENTS",
            SourceKind::CustomSpecified => "CUSTOM_SPECIFIED",
            SourceKind::Other => "OTHER",
        }
    }
}

/// Origin by path shape, first match winning: chat-application storage
/// fragments first — the macOS container names, then the Windows roaming-data
/// names — then a standard user folder occurring as a segment or as the
/// path's suffix, and `Other` when nothing matches.
pub open spec fn spec_classify(p: Seq<char>) -> SourceKind {
    if contains_seq(p, "com.tencent.xinWeChat"@) {
        SourceKind::WeChatFile
    } else if contains_seq(p, "WXWork"@) {
        SourceKind::WeComFile
    } else if contains_seq(p, "com.alibaba.DingTalkMac"@) {
        SourceKind::DingTalkFile
    } else if contains_seq(p, "WeChat Files"@) || contains_seq(p, "Tencent/WeChat"@) {
        SourceKind::WeChatFile
    } else if contains_seq(p, "DingTalk"@) {
        SourceKind::DingTalkFile
    } else if contains_seq(p, "/Downloads/"@) || ends_with_seq(p, "/Downloads"@) {
        SourceKind::Downloads
    } else if contains_seq(p, "/Desktop/"@) || ends_with_seq(p, "/Desktop"@) {
        SourceKind::Desktop
    } else if contains_seq(p, "/Documents/"@) || ends_with_seq(p, "/Documents"@) {
        SourceKind::Documents
    } else {
        SourceKind::Other
    }
}

/// Classify a path by its shape alone.
pub fn classify_source_from_path(p: &str) -> (r: SourceKind)
    ensures
        r == spec_classify(p@),
{
    if contains_sub(p, "com.tencent.xinWeChat") {
        SourceKind::WeChatFile
    } else if contains_sub(p, "WXWork") {
        SourceKind::WeComFile
    } else if contains_sub(p, "com.alibaba.DingTalkMac") {
        SourceKind::DingTalkFile
    } else if contains_sub(p, "WeChat Files") || contains_sub(p, "Tencent/WeChat") {
        SourceKind::WeChatFile
    } else if contains_sub(p, "DingTalk") {
        SourceKind::DingTalkFile
    } else if contains_sub(p, "/Downloads/") || ends_with_sub(p, "/Downloads") {
        SourceKind::Downloads
    } else if contains_sub(p, "/Desktop/") || ends_with_sub(p, "/Desktop") {
        SourceKind::Desktop
    } else if contains_sub(p, "/Documents/") || ends_with_sub(p, "/Documents") {
        SourceKind::Documents
    } else {
        SourceKind::Other
    }
}

/// Origin under a scan scope: a custom-scoped scan marks every file
/// `CustomSpecified`; otherwise the path's shape decides.
pub open spec fn spec_classify_scoped(p: Seq<char>, scope: ScanScope) -> SourceKind {
    if scope is Custom {
        SourceKind::CustomSpecified
    } else {
        spec_classify(p)
    }
}

/// Classify a path under the active scan scope.
pub fn classify_for_scope(p: &str, scope: ScanScope) -> (r: SourceKind)
    ensures
        r == spec_classify_scoped(p@, scope),
{
    match scope {
        ScanScope::Custom => SourceKind::CustomSpecified,
        ScanScope::All => classify_source_from_path(p),
    }
}

} // verus!
