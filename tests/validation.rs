use blog::types::{Address, Comment, Post, StoredEntry};
use blog::validation::{
    rate_limit_reached, validate_create_comment, validate_create_link_author_to_comments,
    validate_create_link_post_to_comments, validate_delete_comment,
    validate_delete_link_author_to_comments, validate_delete_link_post_to_comments,
    validate_update_comment, ActionHeader, ActionKind, ChainAction, EntryKind, Reason, Verdict,
    TIME_WINDOW_MS,
};

const MINUTE: i64 = 60 * 1000;

fn addr(b: u8) -> Address {
    Address::new(vec![b; 39])
}

fn comment(content: &str, author: u8) -> Comment {
    Comment { content: content.to_string(), post_hash: addr(1), author: addr(author) }
}

fn post() -> Option<StoredEntry> {
    Some(StoredEntry::Post(Post { title: "t".to_string(), content: "c".to_string() }))
}

fn header(author: u8, timestamp_ms: i64) -> ActionHeader {
    ActionHeader { author: addr(author), timestamp_ms }
}

fn comment_at(timestamp_ms: i64) -> ChainAction {
    ChainAction { kind: ActionKind::Create, entry_kind: Some(EntryKind::Comment), timestamp_ms }
}

fn other_at(kind: ActionKind, entry_kind: Option<EntryKind>, timestamp_ms: i64) -> ChainAction {
    ChainAction { kind, entry_kind, timestamp_ms }
}

#[test]
fn window_is_one_hour() {
    assert_eq!(TIME_WINDOW_MS, 3_600_000);
}

#[test]
fn create_accepts_fourteen_chars() {
    let c = comment("abcdefghijklmn", 7);
    assert_eq!(validate_create_comment(&header(7, 0), &c, &post(), &vec![]), Verdict::Valid);
}

#[test]
fn create_rejects_fifteen_chars() {
    let c = comment("abcdefghijklmno", 7);
    assert_eq!(
        validate_create_comment(&header(7, 0), &c, &post(), &vec![]),
        Verdict::Invalid(Reason::ContentTooLong)
    );
}

#[test]
fn length_counts_characters_not_bytes() {
    let c = comment("ééééééééééééés", 7);
    assert_eq!(c.content.len(), 27);
    assert_eq!(c.content.chars().count(), 14);
    assert_eq!(validate_create_comment(&header(7, 0), &c, &post(), &vec![]), Verdict::Valid);
}

#[test]
fn update_rejects_fifteen_chars_and_accepts_fourteen() {
    let long = comment("abcdefghijklmno", 7);
    let short = comment("abcdefghijklmn", 7);
    let orig = comment("hi", 7);
    assert_eq!(
        validate_update_comment(&header(7, 5), &long, &header(7, 0), &orig, &post()),
        Verdict::Invalid(Reason::ContentTooLong)
    );
    assert_eq!(
        validate_update_comment(&header(7, 5), &short, &header(7, 0), &orig, &post()),
        Verdict::Valid
    );
}

#[test]
fn create_rejects_missing_post() {
    let c = comment("hello", 7);
    assert_eq!(
        validate_create_comment(&header(7, 0), &c, &None, &vec![]),
        Verdict::Invalid(Reason::DanglingReference)
    );
}

#[test]
fn create_rejects_post_address_of_a_comment() {
    let c = comment("hello", 7);
    let other = Some(StoredEntry::Comment(comment("x", 8)));
    assert_eq!(
        validate_create_comment(&header(7, 0), &c, &other, &vec![]),
        Verdict::Invalid(Reason::DanglingReference)
    );
}

#[test]
fn fourth_comment_in_an_hour_is_rejected() {
    let now = 1_000 * MINUTE;
    let activity = vec![comment_at(now - 10 * MINUTE), comment_at(now - 20 * MINUTE), comment_at(now - 30 * MINUTE)];
    let c = comment("hello", 7);
    assert_eq!(
        validate_create_comment(&header(7, now), &c, &post(), &activity),
        Verdict::Invalid(Reason::RateLimitExceeded)
    );
}

#[test]
fn fourth_comment_after_sixty_one_minutes_is_accepted() {
    let first = 1_000 * MINUTE;
    let now = first + 61 * MINUTE;
    let activity = vec![comment_at(first + 30 * MINUTE), comment_at(first + 10 * MINUTE), comment_at(first)];
    let c = comment("hello", 7);
    assert_eq!(validate_create_comment(&header(7, now), &c, &post(), &activity), Verdict::Valid);
}

#[test]
fn comment_exactly_one_hour_old_still_counts() {
    let now = 1_000 * MINUTE;
    let activity = vec![comment_at(now - MINUTE), comment_at(now - 2 * MINUTE), comment_at(now - 60 * MINUTE)];
    assert!(rate_limit_reached(&activity, now));
}

#[test]
fn other_actions_do_not_count() {
    let now = 1_000 * MINUTE;
    let activity = vec![
        comment_at(now - MINUTE),
        other_at(ActionKind::Create, Some(EntryKind::Post), now - 2 * MINUTE),
        other_at(ActionKind::Update, Some(EntryKind::Comment), now - 3 * MINUTE),
        other_at(ActionKind::CreateLink, None, now - 4 * MINUTE),
        comment_at(now - 5 * MINUTE),
    ];
    assert!(!rate_limit_reached(&activity, now));
    let c = comment("hello", 7);
    assert_eq!(validate_create_comment(&header(7, now), &c, &post(), &activity), Verdict::Valid);
}

#[test]
fn walk_stops_at_first_action_outside_window() {
    let now = 1_000 * MINUTE;
    let activity = vec![
        comment_at(now - MINUTE),
        other_at(ActionKind::Delete, None, now - 90 * MINUTE),
        comment_at(now - 2 * MINUTE),
        comment_at(now - 3 * MINUTE),
    ];
    assert!(!rate_limit_reached(&activity, now));
}

#[test]
fn length_is_checked_before_rate_limit() {
    let now = 1_000 * MINUTE;
    let activity = vec![comment_at(now - 1), comment_at(now - 2), comment_at(now - 3)];
    let c = comment("abcdefghijklmnopqrstuvwxyz", 7);
    assert_eq!(
        validate_create_comment(&header(7, now), &c, &post(), &activity),
        Verdict::Invalid(Reason::ContentTooLong)
    );
}

#[test]
fn update_by_other_author_is_rejected() {
    let orig = comment("hi", 7);
    let new = comment("hello", 7);
    assert_eq!(
        validate_update_comment(&header(8, 5), &new, &header(7, 0), &orig, &post()),
        Verdict::Invalid(Reason::UnauthorizedEditor)
    );
}

#[test]
fn update_by_other_author_is_rejected_even_when_content_is_invalid() {
    let orig = comment("hi", 7);
    let new = comment("abcdefghijklmnopqrstuvwxyz", 7);
    assert_eq!(
        validate_update_comment(&header(8, 5), &new, &header(7, 0), &orig, &None),
        Verdict::Invalid(Reason::UnauthorizedEditor)
    );
}

#[test]
fn update_naming_another_author_is_rejected() {
    let orig = comment("hi", 7);
    let new = comment("hello", 8);
    assert_eq!(
        validate_update_comment(&header(7, 5), &new, &header(7, 0), &orig, &post()),
        Verdict::Invalid(Reason::UnauthorizedEditor)
    );
}

#[test]
fn update_with_missing_post_is_rejected() {
    let orig = comment("hi", 7);
    let new = comment("hello", 7);
    assert_eq!(
        validate_update_comment(&header(7, 5), &new, &header(7, 0), &orig, &None),
        Verdict::Invalid(Reason::DanglingReference)
    );
}

#[test]
fn deletes_are_accepted() {
    let orig = comment("hi", 7);
    assert_eq!(validate_delete_comment(&header(8, 5), &header(7, 0), &orig), Verdict::Valid);
    assert_eq!(validate_delete_link_post_to_comments(), Verdict::Valid);
    assert_eq!(validate_delete_link_author_to_comments(), Verdict::Valid);
}

#[test]
fn post_to_comments_link_needs_post_and_comment() {
    let c = Some(StoredEntry::Comment(comment("x", 7)));
    assert_eq!(validate_create_link_post_to_comments(&post(), &c), Verdict::Valid);
    assert_eq!(
        validate_create_link_post_to_comments(&c, &c),
        Verdict::Invalid(Reason::TypeMismatch)
    );
    assert_eq!(
        validate_create_link_post_to_comments(&post(), &post()),
        Verdict::Invalid(Reason::TypeMismatch)
    );
    assert_eq!(
        validate_create_link_post_to_comments(&post(), &None),
        Verdict::Invalid(Reason::TypeMismatch)
    );
}

#[test]
fn author_to_comments_link_needs_comment() {
    let c = Some(StoredEntry::Comment(comment("x", 7)));
    assert_eq!(validate_create_link_author_to_comments(&c), Verdict::Valid);
    assert_eq!(
        validate_create_link_author_to_comments(&post()),
        Verdict::Invalid(Reason::TypeMismatch)
    );
    assert_eq!(
        validate_create_link_author_to_comments(&None),
        Verdict::Invalid(Reason::TypeMismatch)
    );
}
