use vstd::prelude::*;
use vstd::string::StrSliceExecFns;
use crate::types::{is_comment, is_post, Address, AuthorId, Comment, StoredEntry};

verus! {

/// Width of the sliding window of the comment rate limit, in milliseconds.
pub const TIME_WINDOW_MS: i64 = 1000 * 60 * 60;

/// Number of earlier comments inside the window at which a new one is refused.
pub const MAX_RECENT_COMMENTS: usize = 3;

/// Comments must hold fewer characters than this.
pub const MAX_CONTENT_CHARS: usize = 15;

/// The kind of an action on an author's chain.
#[derive(Clone, Copy, Debug, PartialEq, Eq, Structural)]
pub enum ActionKind {
    Create,
    Update,
    Delete,
    CreateLink,
    DeleteLink,
    Other,
}

/// The entry types of the blog.
#[derive(Clone, Copy, Debug, PartialEq, Eq, Structural)]
pub enum EntryKind {
    Post,
    Comment,
}

/// One action of an author's chain, as far as the rate limit reads it.
#[derive(Clone, Copy, Debug, PartialEq, Eq, Structural)]
pub struct ChainAction {
    pub kind: ActionKind,
    /// The entry type written by the action, when it writes an entry of the blog.
    pub entry_kind: Option<EntryKind>,
    pub timestamp_ms: i64,
}

/// The author and time of the action under validation (or of the action it revises).
pub struct ActionHeader {
    pub author: AuthorId,
    pub timestamp_ms: i64,
}

/// Why an action is refused.
#[derive(Clone, Copy, Debug, PartialEq, Eq, Structural)]
pub enum Reason {
    DanglingReference,
    ContentTooLong,
    RateLimitExceeded,
    UnauthorizedEditor,
    TypeMismatch,
}

/// The verdict of a validation rule.
#[derive(Clone, Copy, Debug, PartialEq, Eq, Structural)]
pub enum Verdict {
    Valid,
    Invalid(Reason),
}

pub open spec fn is_comment_create(a: ChainAction) -> bool {
    a.kind == ActionKind::Create && a.entry_kind == Some(EntryKind::Comment)
}

pub open spec fn in_window(now: i64, t: i64) -> bool {
    now - t <= TIME_WINDOW_MS
}

/// Walking the chain from the newest action back, the number of comment
/// creations met before the first action that lies outside the window.
pub open spec fn recent_comments(acts: Seq<ChainAction>, now: i64) -> nat
    decreases acts.len(),
{
    if acts.len() == 0 {
        0
    } else if !in_window(now, acts[0].timestamp_ms) {
        0
    } else {
        (if is_comment_create(acts[0]) { 1nat } else { 0nat }) + recent_comments(acts.drop_first(), now)
    }
}

pub open spec fn content_too_long(c: Comment) -> bool {
    c.content@.len() >= MAX_CONTENT_CHARS
}

/// What the creation of a comment at time `now` is judged to be.
pub open spec fn create_comment_verdict(
    now: i64,
    c: Comment,
    post: Option<StoredEntry>,
    activity: Seq<ChainAction>,
) -> Verdict {
    if !is_post(post) {
        Verdict::Invalid(Reason::DanglingReference)
    } else if content_too_long(c) {
        Verdict::Invalid(Reason::ContentTooLong)
    } else if recent_comments(activity, now) >= MAX_RECENT_COMMENTS {
        Verdict::Invalid(Reason::RateLimitExceeded)
    } else {
        Verdict::Valid
    }
}

/// What the update of a comment is judged to be.
pub open spec fn update_comment_verdict(
    editor: Seq<u8>,
    c: Comment,
    original_author: Seq<u8>,
    post: Option<StoredEntry>,
) -> Verdict {
    if editor != original_author || c.author@ != original_author {
        Verdict::Invalid(Reason::UnauthorizedEditor)
    } else if content_too_long(c) {
        Verdict::Invalid(Reason::ContentTooLong)
    } else if !is_post(post) {
        Verdict::Invalid(Reason::DanglingReference)
    } else {
        Verdict::Valid
    }
}

/// Whether the author already made `MAX_RECENT_COMMENTS` comments in the
/// window before `now`. `activity` is the author's chain from the action just
/// before the one under validation back toward genesis; the walk stops at the
/// first action outside the window.
pub fn rate_limit_reached(activity: &Vec<ChainAction>, now: i64) -> (r: bool)
    ensures
        r == (recent_comments(activity@, now) >= MAX_RECENT_COMMENTS),
{
    let n = activity.len();
    let mut i: usize = 0;
    let mut count: usize = 0;
    assert(activity@.subrange(0, n as int) =~= activity@);
    while i < n
        invariant
            n == activity@.len(),
            0 <= i <= n,
            count < MAX_RECENT_COMMENTS,
            recent_comments(activity@, now) == count + recent_comments(
                activity@.subrange(i as int, n as int),
                now,
            ),
        decreases n - i,
    {
        let a = activity[i];
        let ghost rest = activity@.subrange(i as int, n as int);
        assert(rest.drop_first() =~= activity@.subrange(i + 1, n as int));
        assert(rest[0] == a);
        if (now as i128) - (a.timestamp_ms as i128) > TIME_WINDOW_MS as i128 {
            return false;
        }
        let is_comment = match (a.kind, a.entry_kind) {
            (ActionKind::Create, Some(EntryKind::Comment)) => true,
            _ => false,
        };
        if is_comment {
            count = count + 1;
            if count >= MAX_RECENT_COMMENTS {
                return true;
            }
        }
        i = i + 1;
    }
    assert(activity@.subrange(n as int, n as int).len() == 0);
    false
}

/// Whether a comment holds `MAX_CONTENT_CHARS` characters or more.
pub fn is_content_too_long(comment: &Comment) -> (r: bool)
    ensures
        r == content_too_long(*comment),
{
    comment.content.as_str().unicode_len() >= MAX_CONTENT_CHARS
}

/// Validates the creation of a comment: its post must resolve to a post, its
/// content must be short enough, and the author must not have reached the rate
/// limit. `post` is what the comment's post address resolved to (`None` when
/// it does not resolve or cannot be decoded); `activity` is the author's chain
/// before this action, newest first.
pub fn validate_create_comment(
    action: &ActionHeader,
    comment: &Comment,
    post: &Option<StoredEntry>,
    activity: &Vec<ChainAction>,
) -> (r: Verdict)
    ensures
        r == create_comment_verdict(action.timestamp_ms, *comment, *post, activity@),
{
    match post {
        Some(StoredEntry::Post(_)) => {},
        _ => {
            return Verdict::Invalid(Reason::DanglingReference);
        },
    }
    if is_content_too_long(comment) {
        return Verdict::Invalid(Reason::ContentTooLong);
    }
    if rate_limit_reached(activity, action.timestamp_ms) {
        return Verdict::Invalid(Reason::RateLimitExceeded);
    }
    Verdict::Valid
}

/// Validates the update of a comment: the editor and the author written in the
/// new comment must both be the author of the original; then the length rule
/// and the post reference are checked as for a creation.
pub fn validate_update_comment(
    action: &ActionHeader,
    comment: &Comment,
    original_action: &ActionHeader,
    _original_comment: &Comment,
    post: &Option<StoredEntry>,
) -> (r: Verdict)
    ensures
        r == update_comment_verdict(action.author@, *comment, original_action.author@, *post),
{
    let author: &Address = &original_action.author;
    if !author.same(&comment.author) || !author.same(&action.author) {
        return Verdict::Invalid(Reason::UnauthorizedEditor);
    }
    if is_content_too_long(comment) {
        return Verdict::Invalid(Reason::ContentTooLong);
    }
    match post {
        Some(StoredEntry::Post(_)) => Verdict::Valid,
        _ => Verdict::Invalid(Reason::DanglingReference),
    }
}

/// The deletion of a comment is accepted as it comes.
pub fn validate_delete_comment(
    _action: &ActionHeader,
    _original_action: &ActionHeader,
    _original_comment: &Comment,
) -> (r: Verdict)
    ensures
        r == Verdict::Valid,
{
    Verdict::Valid
}

/// A link from a post to a comment needs a post at its base and a comment at
/// its target; each is what that address resolved to.
pub fn validate_create_link_post_to_comments(
    base: &Option<StoredEntry>,
    target: &Option<StoredEntry>,
) -> (r: Verdict)
    ensures
        r == (if is_post(*base) && is_comment(*target) {
            Verdict::Valid
        } else {
            Verdict::Invalid(Reason::TypeMismatch)
        }),
{
    match (base, target) {
        (Some(StoredEntry::Post(_)), Some(StoredEntry::Comment(_))) => Verdict::Valid,
        _ => Verdict::Invalid(Reason::TypeMismatch),
    }
}

/// The removal of a link from a post to a comment is accepted as it comes.
pub fn validate_delete_link_post_to_comments() -> (r: Verdict)
    ensures
        r == Verdict::Valid,
{
    Verdict::Valid
}

/// A link from an author to a comment needs a comment at its target.
pub fn validate_create_link_author_to_comments(target: &Option<StoredEntry>) -> (r: Verdict)
    ensures
        r == (if is_comment(*target) {
            Verdict::Valid
        } else {
            Verdict::Invalid(Reason::TypeMismatch)
        }),
{
    match target {
        Some(StoredEntry::Comment(_)) => Verdict::Valid,
        _ => Verdict::Invalid(Reason::TypeMismatch),
    }
}

/// The removal of a link from an author to a comment is accepted as it comes.
pub fn validate_delete_link_author_to_comments() -> (r: Verdict)
    ensures
        r == Verdict::Valid,
{
    Verdict::Valid
}

/// The length rule is exact at its bound: a comment of `MAX_CONTENT_CHARS`
/// characters or more is refused for its length, on creation and on update,
/// once its post resolves (and, for an update, its author may edit it); a
/// shorter one is never refused for its length.
pub proof fn lemma_length_bound(
    now: i64,
    c: Comment,
    post: Option<StoredEntry>,
    activity: Seq<ChainAction>,
    editor: Seq<u8>,
    original_author: Seq<u8>,
)
    requires
        is_post(post),
    ensures
        c.content@.len() >= MAX_CONTENT_CHARS ==> create_comment_verdict(now, c, post, activity)
            == Verdict::Invalid(Reason::ContentTooLong),
        c.content@.len() >= MAX_CONTENT_CHARS && editor == original_author && c.author@
            == original_author ==> update_comment_verdict(editor, c, original_author, post)
            == Verdict::Invalid(Reason::ContentTooLong),
        c.content@.len() < MAX_CONTENT_CHARS ==> create_comment_verdict(now, c, post, activity)
            != Verdict::Invalid(Reason::ContentTooLong),
        c.content@.len() < MAX_CONTENT_CHARS ==> update_comment_verdict(
            editor,
            c,
            original_author,
            post,
        ) != Verdict::Invalid(Reason::ContentTooLong),
{
}

/// An update by anyone but the original author, or one that names another
/// author in the new comment, is refused as unauthorized, whatever the
/// content and the post.
pub proof fn lemma_only_author_edits(
    editor: Seq<u8>,
    c: Comment,
    original_author: Seq<u8>,
    post: Option<StoredEntry>,
)
    requires
        editor != original_author || c.author@ != original_author,
    ensures
        update_comment_verdict(editor, c, original_author, post) == Verdict::Invalid(
            Reason::UnauthorizedEditor,
        ),
{
}

/// The comment creations of `acts` inside the window, wherever they stand.
pub open spec fn comments_in_window(acts: Seq<ChainAction>, now: i64) -> nat
    decreases acts.len(),
{
    if acts.len() == 0 {
        0
    } else {
        (if is_comment_create(acts[0]) && in_window(now, acts[0].timestamp_ms) {
            1nat
        } else {
            0nat
        }) + comments_in_window(acts.drop_first(), now)
    }
}

/// Timestamps that never grow from the newest action back to genesis.
pub open spec fn newest_first(acts: Seq<ChainAction>) -> bool {
    forall|i: int, j: int|
        0 <= i < j < acts.len() ==> (#[trigger] acts[j]).timestamp_ms <= (#[trigger] acts[i]).timestamp_ms
}

proof fn lemma_none_in_window(acts: Seq<ChainAction>, now: i64, t: i64)
    requires
        !in_window(now, t),
        forall|i: int| 0 <= i < acts.len() ==> (#[trigger] acts[i]).timestamp_ms <= t,
    ensures
        comments_in_window(acts, now) == 0,
    decreases acts.len(),
{
    if acts.len() > 0 {
        let rest = acts.drop_first();
        assert forall|i: int| 0 <= i < rest.len() implies (#[trigger] rest[i]).timestamp_ms <= t by {
            assert(rest[i] == acts[i + 1]);
        }
        lemma_none_in_window(rest, now, t);
    }
}

/// On a chain whose timestamps do not grow toward genesis, stopping at the
/// first action outside the window misses no comment: the walk counts every
/// comment creation of the window.
pub proof fn lemma_short_circuit_complete(acts: Seq<ChainAction>, now: i64)
    requires
        newest_first(acts),
    ensures
        recent_comments(acts, now) == comments_in_window(acts, now),
    decreases acts.len(),
{
    if acts.len() > 0 {
        let rest = acts.drop_first();
        assert(newest_first(rest)) by {
            assert forall|i: int, j: int| 0 <= i < j < rest.len() implies (#[trigger] rest[j]).timestamp_ms
                <= (#[trigger] rest[i]).timestamp_ms by {
                assert(rest[i] == acts[i + 1]);
                assert(rest[j] == acts[j + 1]);
            }
        }
        if !in_window(now, acts[0].timestamp_ms) {
            assert forall|i: int| 0 <= i < rest.len() implies (#[trigger] rest[i]).timestamp_ms
                <= acts[0].timestamp_ms by {
                assert(rest[i] == acts[i + 1]);
            }
            lemma_none_in_window(rest, now, acts[0].timestamp_ms);
        } else {
            lemma_short_circuit_complete(rest, now);
        }
    }
}

} // verus!
