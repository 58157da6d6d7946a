use telegram_onedrive::utils::{cmd_parser, try_url_encode, TextExt};
use telegram_onedrive::links::{
    get_message_info, get_message_link, ChatEntity, ChatInfo, LinkError, MessageInfo,
};
use telegram_onedrive::num::{i64_to_dec, u64_to_dec};
use telegram_onedrive::autodel::auto_delete_toggle;
use telegram_onedrive::login::{login_step, LoginAction, SignInOutcome};

#[test]
fn commands_are_purified_and_split() {
    let words = cmd_parser("  /url  <b>https://a.b</b>  ");
    assert_eq!(words, vec!["/url".to_string(), "https://a.b".to_string()]);
}

#[test]
fn purify_removes_markup_and_pre_tags() {
    assert_eq!("<b>hi</b> *there*".to_string().purify(), "hi there");
    assert_eq!("<pre class=\"x\">y</pre>".to_string().purify(), "y");
    assert_eq!("~plain~".to_string().purify(), "plain");
}

#[test]
fn url_encode_normalizes_and_rejects() {
    assert_eq!(
        try_url_encode("https://example.com"),
        Some("https://example.com/".to_string())
    );
    assert_eq!(try_url_encode("ht tp://x"), None);
}

#[test]
fn private_link_parses_to_chat_id() {
    let info = get_message_info("https://t.me/c/123/45").unwrap();
    assert_eq!(info.id, 45);
    assert!(matches!(info.chat_entity, ChatEntity::Id(123)));
}

#[test]
fn public_link_parses_to_username() {
    let info = get_message_info("https://t.me/somechat/7").unwrap();
    assert_eq!(info.id, 7);
    match info.chat_entity {
        ChatEntity::Username(u) => assert_eq!(u, "somechat"),
        _ => panic!("expected a username"),
    }
}

#[test]
fn link_parse_errors_name_the_failing_part() {
    assert_eq!(
        get_message_info("http://elsewhere/1/2").unwrap_err(),
        LinkError::NotMessageLink
    );
    assert_eq!(
        get_message_info("https://t.me/a/b/c").unwrap_err(),
        LinkError::InfoNotPair
    );
    assert_eq!(
        get_message_info("https://t.me/c/abc/4").unwrap_err(),
        LinkError::BadChatId
    );
    assert_eq!(
        get_message_info("https://t.me/chat/xyz").unwrap_err(),
        LinkError::BadMessageId
    );
    assert_eq!(
        get_message_info("https://t.me/c/1/99999999999").unwrap_err(),
        LinkError::BadMessageId
    );
}

#[test]
fn links_are_built_per_entity_form() {
    assert_eq!(get_message_link(&ChatEntity::Id(5), 9), "https://t.me/c/5/9");
    assert_eq!(
        get_message_link(&ChatEntity::Username("chat".to_string()), 3),
        "https://t.me/chat/3"
    );
    let with_name = ChatEntity::Chat(ChatInfo {
        id: 77,
        username: Some("named".to_string()),
    });
    assert_eq!(get_message_link(&with_name, 8), "https://t.me/named/8");
    let without_name = ChatEntity::Chat(ChatInfo { id: 77, username: None });
    assert_eq!(get_message_link(&without_name, 8), "https://t.me/c/77/8");
}

#[test]
fn built_links_parse_back() {
    let link = get_message_link(&ChatEntity::Id(321), 65);
    let info: MessageInfo = get_message_info(&link).unwrap();
    assert_eq!(info.id, 65);
    assert!(matches!(info.chat_entity, ChatEntity::Id(321)));
}

#[test]
fn decimal_rendering_matches_std() {
    assert_eq!(u64_to_dec(0), "0");
    assert_eq!(u64_to_dec(1700000000), "1700000000");
    assert_eq!(i64_to_dec(-5), "-5");
    assert_eq!(i64_to_dec(i64::MIN), i64::MIN.to_string());
    assert_eq!(i64_to_dec(i64::MAX), i64::MAX.to_string());
}

#[test]
fn auto_delete_toggle_flips_and_announces() {
    let (on, text_on) = auto_delete_toggle(false);
    assert!(on);
    assert_eq!(text_on, "Bot will auto delete message.");
    let (off, text_off) = auto_delete_toggle(true);
    assert!(!off);
    assert_eq!(text_off, "Bot won't auto delete message.");
}

#[test]
fn login_decisions_follow_the_outcome() {
    assert_eq!(login_step(&SignInOutcome::Success, false), LoginAction::Done);
    assert_eq!(
        login_step(&SignInOutcome::PasswordRequired, true),
        LoginAction::CheckPassword
    );
    assert_eq!(
        login_step(&SignInOutcome::PasswordRequired, false),
        LoginAction::FailPasswordRequired
    );
    assert_eq!(
        login_step(&SignInOutcome::InvalidCode, true),
        LoginAction::AskCodeAgain
    );
    assert_eq!(login_step(&SignInOutcome::OtherError, true), LoginAction::FailSignIn);
}
