use blogbot::blog::{
    create, delete, deleted_reply, nick, renamed_reply, resolve_nick_name, webhook, BlogError,
    CommandOption, OptionValue, Webhook,
};
use blogbot::channel::Channel;

fn chan(id: u64, name: &str, parent: Option<u64>, topic: Option<&str>, position: u16) -> Channel {
    Channel {
        id,
        name: name.to_string(),
        parent_id: parent,
        topic: topic.map(|t| t.to_string()),
        position,
    }
}

#[test]
fn create_plans_new_channel_under_category() {
    let channels = vec![
        chan(1, "Blogs", None, None, 0),
        chan(2, "Alice", Some(1), Some("100"), 0),
        chan(3, "Charlie", Some(1), Some("101"), 1),
    ];
    let plan = create(
        &channels,
        &"102".to_string(),
        &"Bob".to_string(),
        102,
        777,
    )
    .unwrap();
    assert_eq!(plan.name, "Bob");
    assert_eq!(plan.topic, "102");
    assert_eq!(plan.category, 1);
    assert_eq!(plan.allow_member, 102);
    assert_eq!(plan.deny_role, 777);
}

#[test]
fn create_rejects_duplicate_owner() {
    let channels = vec![
        chan(1, "Blogs", None, None, 0),
        chan(2, "Alice", Some(1), Some("100"), 0),
    ];
    let err = create(
        &channels,
        &"100".to_string(),
        &"Alice".to_string(),
        100,
        777,
    )
    .unwrap_err();
    assert_eq!(err, BlogError::AlreadyExists);
    assert!(!err.is_fatal());
    assert_eq!(
        err.reply_text(),
        "Do not be greedy! Your blog channel already exists."
    );
}

#[test]
fn create_fails_loudly_without_category() {
    let channels = vec![chan(2, "general", None, None, 0)];
    let err = create(&channels, &"100".to_string(), &"Ann".to_string(), 100, 777).unwrap_err();
    assert_eq!(err, BlogError::MissingCategory);
    assert!(err.is_fatal());
}

#[test]
fn nick_finds_owned_channel() {
    let channels = vec![
        chan(1, "Blogs", None, None, 0),
        chan(2, "Alice", Some(1), Some("100"), 0),
        chan(3, "Charlie", Some(1), Some("101"), 1),
    ];
    assert_eq!(nick(&channels, &"101".to_string()).unwrap(), 3);
}

#[test]
fn nick_without_blog_is_rejected() {
    let channels = vec![chan(1, "Blogs", None, None, 0)];
    let err = nick(&channels, &"100".to_string()).unwrap_err();
    assert_eq!(err, BlogError::NoBlog);
    assert_eq!(err.reply_text(), "You don't have a blog silly goose!");
}

#[test]
fn nick_fails_loudly_without_category() {
    // The owner has a channel, but no "Blogs" category exists: a
    // precondition violation, reported before any rename is issued.
    let channels = vec![chan(2, "Alice", Some(1), Some("100"), 0)];
    let err = nick(&channels, &"100".to_string()).unwrap_err();
    assert_eq!(err, BlogError::MissingCategory);
    assert!(err.is_fatal());
}

#[test]
fn delete_on_non_owner_fails_without_mutation() {
    let channels = vec![
        chan(1, "Blogs", None, None, 0),
        chan(2, "Alice", Some(1), Some("100"), 0),
    ];
    // The decision returns the error and names no channel to delete, so
    // the surrounding application mutates nothing.
    let err = delete(&channels, &"999".to_string()).unwrap_err();
    assert_eq!(err, BlogError::NoBlog);
    assert_eq!(err.reply_text(), "You don't have a blog silly goose!");
}

#[test]
fn delete_finds_owned_channel() {
    let channels = vec![
        chan(1, "Blogs", None, None, 0),
        chan(2, "Alice", Some(1), Some("100"), 0),
    ];
    assert_eq!(delete(&channels, &"100".to_string()).unwrap(), 2);
}

#[test]
fn nick_name_falls_back_to_display_name() {
    let options = vec![CommandOption {
        name: "nick".to_string(),
        value: OptionValue::Sub(vec![]),
    }];
    let name = resolve_nick_name(&options, &"CurrentName".to_string()).unwrap();
    assert_eq!(name, "CurrentName");
}

#[test]
fn nick_name_uses_explicit_argument() {
    let options = vec![CommandOption {
        name: "nick".to_string(),
        value: OptionValue::Sub(vec![CommandOption {
            name: "name".to_string(),
            value: OptionValue::Str("Fresh".to_string()),
        }]),
    }];
    let name = resolve_nick_name(&options, &"CurrentName".to_string()).unwrap();
    assert_eq!(name, "Fresh");
}

#[test]
fn nick_name_rejects_missing_options() {
    let err = resolve_nick_name(&vec![], &"X".to_string()).unwrap_err();
    assert_eq!(err, BlogError::NoOptions);
    assert_eq!(err.reply_text(), "No options present");
}

#[test]
fn nick_name_rejects_non_subcommand() {
    let options = vec![CommandOption {
        name: "nick".to_string(),
        value: OptionValue::Str("oops".to_string()),
    }];
    let err = resolve_nick_name(&options, &"X".to_string()).unwrap_err();
    assert_eq!(err, BlogError::NotSubcommand);
    assert_eq!(err.reply_text(), "Option is not a subcommand");
}

#[test]
fn nick_name_rejects_non_string_argument() {
    let options = vec![CommandOption {
        name: "nick".to_string(),
        value: OptionValue::Sub(vec![CommandOption {
            name: "name".to_string(),
            value: OptionValue::Other,
        }]),
    }];
    let err = resolve_nick_name(&options, &"X".to_string()).unwrap_err();
    assert_eq!(err, BlogError::NotString);
    assert_eq!(err.reply_text(), "Option is not a str");
}

fn hook(id: u64, name: Option<&str>, token: Option<&str>) -> Webhook {
    Webhook {
        id,
        name: name.map(|n| n.to_string()),
        token: token.map(|t| t.to_string()),
    }
}

#[test]
fn webhook_reuses_existing_hook() {
    let hooks = vec![
        hook(1, Some("Other"), Some("t1")),
        hook(2, Some("BlogHook"), Some("t2")),
        hook(3, Some("BlogHook"), Some("t3")),
    ];
    assert_eq!(webhook(&hooks), Some(1));
}

#[test]
fn webhook_requests_creation_when_absent() {
    let hooks = vec![hook(1, Some("Other"), Some("t1")), hook(2, None, Some("t2"))];
    assert_eq!(webhook(&hooks), None);
}

#[test]
fn webhook_url_from_id_and_token() {
    assert_eq!(
        blogbot::blog::webhook_url(245, &Some("abc-def".to_string())).unwrap(),
        "https://discord.com/api/webhooks/245/abc-def"
    );
    assert_eq!(blogbot::blog::webhook_url(245, &None), None);
}

#[test]
fn webhook_url_is_stable_across_calls() {
    let hooks = vec![
        hook(1, None, Some("t1")),
        hook(2, Some("BlogHook"), Some("t2")),
    ];
    let first = webhook(&hooks).unwrap();
    // The lookup decides to reuse, so nothing is created and the list is
    // unchanged for the second call.
    let second = webhook(&hooks).unwrap();
    assert_eq!(first, second);
    let url_one = blogbot::blog::webhook_url(hooks[first].id, &hooks[first].token).unwrap();
    let url_two = blogbot::blog::webhook_url(hooks[second].id, &hooks[second].token).unwrap();
    assert_eq!(url_one, url_two);
    assert_eq!(url_one, "https://discord.com/api/webhooks/2/t2");
}

#[test]
fn webhook_reply_texts() {
    assert_eq!(
        blogbot::blog::webhook_reply(&"https://example.invalid/2".to_string()),
        "Your blog channel's webhook URL is: https://example.invalid/2"
    );
    assert_eq!(
        blogbot::blog::webhook_error(&"boom".to_string()),
        "Error while creating webhook: boom"
    );
    assert_eq!(blogbot::blog::webhook_name(), "BlogHook");
}

#[test]
fn confirmation_replies() {
    assert_eq!(
        blogbot::blog::created_reply(),
        "Your blog channel has been created!"
    );
    assert_eq!(renamed_reply(), "Your blog channel has been renamed!");
    assert_eq!(deleted_reply(), "Your blog channel has been deleted!");
}
