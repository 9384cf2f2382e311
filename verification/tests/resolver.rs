use post_extract::emoji::resolve_emoji;
use post_extract::emote::EmoteResolver;

fn empty_resolver() -> EmoteResolver {
    EmoteResolver::with_mapping(Vec::new())
}

#[test]
fn emoji_test_emoji() {
    let resolver = empty_resolver();
    assert_eq!(
        resolve_emoji(
            &resolver,
            "https://www.youtube.com/s/gaming/emoji/7ff574f2/emoji_u1f499.png",
            Some("\u{f0}\u{178}\u{2019}\u{2122}")
        ),
        Some("\u{f0}\u{178}\u{2019}\u{2122}".to_string())
    );

    assert_eq!(
        resolve_emoji(
            &resolver,
            "https://yt3.googleusercontent.com/9CkO5FMttx7Cx-6HUnNQZ6RhhddVL4oBzrCX_A3kUYDL0nKVWCfwYp49_w3mjgSn7oBey3dxerU=s16-w24-h24-c-k-nd",
            Some("Rawr")
        ),
        Some(":_Rawr:".to_string())
    );
}

#[test]
fn emote_test_emoji() {
    let resolver = EmoteResolver::with_mapping(vec![(
        "FrYgdeZPpvXs-6Mp305ZiimWJ0wV5bcVZctaUy80mnIdwe-P8HRGYAm0OyBtVx8EB9_Dxkc="
            .to_string(),
        "eyes-purple-crying".to_string(),
    )]);

    assert_eq!(
        resolver.resolve_emoji(
            "https://www.youtube.com/s/gaming/emoji/7ff574f2/emoji_u1f499.png",
            Some("\u{1f499}")
        ),
        Some("\u{1f499}".to_string())
    );

    assert_eq!(
        resolver.resolve_emoji(
            "https://yt3.googleusercontent.com/9CkO5FMttx7Cx-6HUnNQZ6RhhddVL4oBzrCX_A3kUYDL0nKVWCfwYp49_w3mjgSn7oBey3dxerU=s16-w24-h24-c-k-nd",
            Some("Rawr")
        ),
        Some(":_Rawr:".to_string())
    );

    assert_eq!(
        resolver.resolve_emoji(
            "https://www.youtube.com/s/gaming/emoji/7ff574f2/emoji_u1f499.png",
            None
        ),
        Some("\u{1f499}".to_string())
    );

    assert_eq!(
        resolver.resolve_emoji(
            "https://www.youtube.com/s/gaming/emoji/7ff574f2/emoji_u1f647_200d_2642.png",
            None
        ),
        Some("\u{1f647}\u{200d}\u{2642}".to_string())
    );

    assert_eq!(
        resolver.resolve_emoji(
            "https://www.youtube.com/s/gaming/emoji/7ff574f2/emoji_u1f64c_1f3fb.png",
            None
        ),
        Some("\u{1f64c}\u{1f3fb}".to_string())
    );

    assert_eq!(
        resolver.resolve_emoji(
            "https://www.youtube.com/s/gaming/emoji/7ff574f2/emoji_u1f64f_1f3fc.png",
            None
        ),
        Some("\u{1f64f}\u{1f3fc}".to_string())
    );

    assert_eq!(
        resolver.resolve_emoji(
            "https://lh3.googleusercontent.com/FrYgdeZPpvXs-6Mp305ZiimWJ0wV5bcVZctaUy80mnIdwe-P8HRGYAm0OyBtVx8EB9_Dxkc=s16-w24-h24-c-k-nd",
            None
        ),
        Some(":_eyes-purple-crying:".to_string())
    );
}

#[test]
fn resolver_alt_wins_over_unicode_source() {
    let resolver = empty_resolver();
    assert_eq!(
        resolver.resolve_emoji("https://x/emoji_u1f499.png", Some("\u{1f499}")),
        Some("\u{1f499}".to_string())
    );
}

#[test]
fn resolver_blank_alt_is_ignored() {
    let resolver = empty_resolver();
    assert_eq!(
        resolver.resolve_emoji("https://x/emoji_u1f499.png", Some("   ")),
        Some("\u{1f499}".to_string())
    );
}

#[test]
fn resolver_custom_alt_token() {
    let resolver = empty_resolver();
    assert_eq!(
        resolver.resolve_emoji("https://host/abc=s16", Some("Rawr")),
        Some(":_Rawr:".to_string())
    );
}

#[test]
fn resolver_unknown_custom_id_is_a_miss() {
    let resolver = empty_resolver();
    assert_eq!(resolver.resolve_emoji("https://host/unknown=s16", None), None);
}

#[test]
fn resolver_later_mapping_entry_overrides_earlier() {
    let resolver = EmoteResolver::with_mapping(vec![
        ("id=".to_string(), "old".to_string()),
        ("id=".to_string(), "new".to_string()),
    ]);
    assert_eq!(
        resolver.resolve_emoji("https://host/id=s16-w24", None),
        Some(":_new:".to_string())
    );
}

#[test]
fn resolver_bad_hex_is_a_miss() {
    let resolver = empty_resolver();
    assert_eq!(resolver.resolve_emoji("https://x/emoji_uzzzz.png", None), None);
    assert_eq!(resolver.resolve_emoji("https://x/emoji_ud800.png", None), None);
}

#[test]
fn basic_resolver_decodes_prefix_group() {
    // the basic algorithm reads the hex group before the first
    // underscore of the whole source string
    let resolver = empty_resolver();
    assert_eq!(
        resolve_emoji(&resolver, "1f499_emoji_u", None),
        Some("\u{1f499}".to_string())
    );
    assert_eq!(resolve_emoji(&resolver, "https://x/emoji_u1f499.png", None), None);
}

#[test]
fn custom_emoji_name_looks_up_mapping() {
    let resolver = EmoteResolver::with_mapping(vec![("k=".to_string(), "v".to_string())]);
    assert_eq!(
        post_extract::emoji::custom_emoji_name(&resolver, "k="),
        Some("v".to_string())
    );
    assert_eq!(post_extract::emoji::custom_emoji_name(&resolver, "nope"), None);
}
