use theseus::oauth::{
    accepts_chinese, authorization_code_from_pairs, authorization_code_reply, render_reply_page,
    replace_all, reply_page_copy, AuthorizationCodeReply,
};

#[test]
fn chinese_is_detected_in_any_language_entry() {
    assert!(accepts_chinese("zh-CN"));
    assert!(accepts_chinese("en-US, zh;q=0.8"));
    assert!(accepts_chinese("en,  zh-TW"));
    assert!(!accepts_chinese("en-US,en;q=0.9"));
    assert!(!accepts_chinese("en-zh"));
    assert!(!accepts_chinese(""));
}

#[test]
fn reply_page_copy_follows_accept_language() {
    let zh = reply_page_copy(Some("fr, zh-CN;q=0.5"));
    assert_eq!(zh.language, "zh-CN");
    assert_eq!(zh.success_title, "登录成功");
    let en = reply_page_copy(Some("fr"));
    assert_eq!(en.language, "en");
    assert_eq!(en.error_title, "Error");
    assert_eq!(reply_page_copy(None).success_title, "Success");
}

#[test]
fn replace_all_scans_left_to_right() {
    assert_eq!(replace_all("aaa", "aa", "b"), "ba");
    assert_eq!(replace_all("x{{t}}y{{t}}", "{{t}}", "-"), "x-y-");
    assert_eq!(replace_all("none", "zz", "q"), "none");
}

#[test]
fn reply_page_fills_language_title_and_message() {
    let page = render_reply_page(
        "<html lang=en><h1>{{title}}</h1><p>{{message}}</p></html>",
        "zh-CN",
        "T",
        "M",
    );
    assert_eq!(page, "<html lang=zh-CN><h1>T</h1><p>M</p></html>");
}

#[test]
fn code_and_state_come_from_the_query() {
    assert_eq!(
        authorization_code_reply(Some("code=abc&state=xyz")),
        Some(AuthorizationCodeReply { code: "abc".to_string(), state: Some("xyz".to_string()) })
    );
    assert_eq!(
        authorization_code_reply(Some("code=a%20b+c")),
        Some(AuthorizationCodeReply { code: "a b c".to_string(), state: None })
    );
    assert_eq!(authorization_code_reply(Some("state=only")), None);
    assert_eq!(authorization_code_reply(None), None);
}

#[test]
fn the_last_repeated_parameter_wins() {
    let pairs = vec![
        ("code".to_string(), "first".to_string()),
        ("state".to_string(), "s1".to_string()),
        ("code".to_string(), "second".to_string()),
    ];
    assert_eq!(
        authorization_code_from_pairs(&pairs),
        Some(AuthorizationCodeReply { code: "second".to_string(), state: Some("s1".to_string()) })
    );
}
