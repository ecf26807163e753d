use flashback::classify::{
    classify_for_scope, classify_source_from_path, scan_scope_of, ScanScope, SourceKind,
};

#[test]
fn scope_labels() {
    assert_eq!(scan_scope_of("CUSTOM"), ScanScope::Custom);
    assert_eq!(scan_scope_of("ALL"), ScanScope::All);
    assert_eq!(scan_scope_of(""), ScanScope::All);
    assert_eq!(scan_scope_of("custom"), ScanScope::All);
}

#[test]
fn wechat_container_path_is_wechat_file() {
    let p = "/Users/u/Library/Containers/com.tencent.xinWeChat/Data/docs/a.pdf";
    assert_eq!(classify_source_from_path(p), SourceKind::WeChatFile);
}

#[test]
fn custom_scope_overrides_path_shape() {
    let p = "/Users/u/Library/Containers/com.tencent.xinWeChat/Data/docs/a.pdf";
    assert_eq!(classify_for_scope(p, ScanScope::All), SourceKind::WeChatFile);
    assert_eq!(classify_for_scope(p, ScanScope::Custom), SourceKind::CustomSpecified);
}

#[test]
fn wecom_and_dingtalk_paths() {
    assert_eq!(
        classify_source_from_path("/Users/u/Library/Containers/WXWork/file.doc"),
        SourceKind::WeComFile
    );
    assert_eq!(
        classify_source_from_path(
            "/Users/u/Library/Containers/com.alibaba.DingTalkMac/Data/x.xlsx"
        ),
        SourceKind::DingTalkFile
    );
    assert_eq!(
        classify_source_from_path("/u/AppData/Roaming/DingTalk/x.png"),
        SourceKind::DingTalkFile
    );
}

#[test]
fn windows_wechat_paths() {
    assert_eq!(
        classify_source_from_path("/u/Documents/WeChat Files/chat/img.png"),
        SourceKind::WeChatFile
    );
    assert_eq!(
        classify_source_from_path("/u/AppData/Roaming/Tencent/WeChat/img.png"),
        SourceKind::WeChatFile
    );
}

#[test]
fn user_folders_by_segment_or_suffix() {
    assert_eq!(classify_source_from_path("/home/u/Downloads/a.pdf"), SourceKind::Downloads);
    assert_eq!(classify_source_from_path("/home/u/Downloads"), SourceKind::Downloads);
    assert_eq!(classify_source_from_path("/home/u/Desktop/a.pdf"), SourceKind::Desktop);
    assert_eq!(classify_source_from_path("/home/u/Documents/a.pdf"), SourceKind::Documents);
    assert_eq!(classify_source_from_path("/srv/data/a.pdf"), SourceKind::Other);
}

#[test]
fn chat_fragments_win_over_user_folders() {
    // First match wins: the chat fragment takes precedence over Documents.
    let p = "/home/u/Documents/WeChat Files/x.md";
    assert_eq!(classify_source_from_path(p), SourceKind::WeChatFile);
}

#[test]
fn source_tags() {
    assert_eq!(SourceKind::WeChatMessage.as_str(), "WECHAT_MESSAGE");
    assert_eq!(SourceKind::WeChatFile.as_str(), "WECHAT_FILE");
    assert_eq!(SourceKind::WeComMessage.as_str(), "WECOM_MESSAGE");
    assert_eq!(SourceKind::WeComFile.as_str(), "WECOM_FILE");
    assert_eq!(SourceKind::DingTalkMessage.as_str(), "DINGTALK_MESSAGE");
    assert_eq!(SourceKind::DingTalkFile.as_str(), "DINGTALK_FILE");
    assert_eq!(SourceKind::Downloads.as_str(), "DOWNLOADS");
    assert_eq!(SourceKind::Desktop.as_str(), "DESKTOP");
    assert_eq!(SourceKind::Documents.as_str(), "DOCUMENTS");
    assert_eq!(SourceKind::CustomSpecified.as_str(), "CUSTOM_SPECIFIED");
    assert_eq!(SourceKind::Other.as_str(), "OTHER");
}
