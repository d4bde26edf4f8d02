use blog::coordinator::{
    create_comment, create_post, delete_comment, delete_post, get_all_deletes_for_comment,
    get_deleted_comments_for_author, get_deleted_comments_for_post, get_latest_post,
    get_oldest_delete_for_comment, get_original_comment, get_original_post, require_found,
    update_post, Link, LinkKind, UpdatePostInput,
};
use blog::types::{Address, BlogError, Comment, Details, Post, RecordDetails};

fn addr(b: u8) -> Address {
    Address::new(vec![b; 39])
}

fn link(id: u8, target: Option<u8>, timestamp_us: i64) -> Link {
    Link { create_link_hash: addr(id), target: target.map(addr), timestamp_us }
}

fn record(r: u8, updates: Vec<u8>, deletes: Vec<u8>) -> Option<Details<u8, u8>> {
    Some(Details::Record(RecordDetails {
        record: r,
        updates: updates.into_iter().map(addr).collect(),
        deletes,
    }))
}

#[test]
fn address_equality_is_by_bytes() {
    assert!(addr(3).same(&addr(3)));
    assert!(!addr(3).same(&addr(4)));
    assert!(!Address::new(vec![1, 2]).same(&Address::new(vec![1, 2, 3])));
    assert_eq!(addr(9).duplicate().bytes, vec![9u8; 39]);
}

#[test]
fn new_post_is_indexed_under_all_posts() {
    let l = create_post(&addr(100), &addr(5));
    assert_eq!(l.base.bytes, addr(100).bytes);
    assert_eq!(l.target.bytes, addr(5).bytes);
    assert_eq!(l.kind, LinkKind::AllPosts);
}

#[test]
fn new_comment_is_indexed_under_its_post() {
    let c = Comment { content: "hi".to_string(), post_hash: addr(1), author: addr(7) };
    let l = create_comment(&c, &addr(9));
    assert_eq!(l.base.bytes, addr(1).bytes);
    assert_eq!(l.target.bytes, addr(9).bytes);
    assert_eq!(l.kind, LinkKind::PostToComments);
}

#[test]
fn post_update_is_linked_from_original() {
    let input = UpdatePostInput {
        original_post_hash: addr(1),
        previous_post_hash: addr(2),
        updated_post: Post { title: "t".to_string(), content: "c".to_string() },
    };
    let l = update_post(&input, &addr(3));
    assert_eq!(l.base.bytes, addr(1).bytes);
    assert_eq!(l.target.bytes, addr(3).bytes);
    assert_eq!(l.kind, LinkKind::PostUpdates);
}

#[test]
fn written_record_must_be_found() {
    assert_eq!(require_found(Some(4u8)), Ok(4));
    assert_eq!(require_found::<u8>(None), Err(BlogError::NotFound));
}

#[test]
fn original_record_lookup() {
    assert_eq!(get_original_post::<u8, u8>(None), Ok(None));
    assert_eq!(get_original_post(record(4, vec![2], vec![])), Ok(Some(4)));
    assert_eq!(get_original_comment(record(6, vec![], vec![1])), Ok(Some(6)));
    assert_eq!(get_original_comment::<u8, u8>(Some(Details::Entry)), Err(BlogError::MalformedRecord));
}

#[test]
fn deletes_of_a_comment() {
    assert_eq!(get_all_deletes_for_comment::<u8, u8>(None), Ok(None));
    assert_eq!(get_all_deletes_for_comment(record(4, vec![], vec![8, 9])), Ok(Some(vec![8, 9])));
    assert_eq!(
        get_all_deletes_for_comment::<u8, u8>(Some(Details::Entry)),
        Err(BlogError::MalformedRecord)
    );
}

#[test]
fn oldest_delete_is_smallest_timestamp_first_on_ties() {
    assert_eq!(get_oldest_delete_for_comment::<u8>(None), None);
    assert_eq!(get_oldest_delete_for_comment::<u8>(Some(vec![])), None);
    let deletes = vec![(1u8, 50i64), (2, 20), (3, 40), (4, 20)];
    assert_eq!(get_oldest_delete_for_comment(Some(deletes)), Some(2));
}

#[test]
fn deleted_comments_keep_only_tombstoned_edges() {
    let edges = vec![(1u8, vec![]), (2, vec![10u8]), (3, vec![]), (4, vec![11, 12])];
    assert_eq!(get_deleted_comments_for_post(edges), vec![(2, vec![10]), (4, vec![11, 12])]);
    let none: Vec<(u8, Vec<u8>)> = vec![(1, vec![]), (2, vec![])];
    assert_eq!(get_deleted_comments_for_author(none), vec![]);
    let all = vec![(5u8, vec![1u8])];
    assert_eq!(get_deleted_comments_for_author(all), vec![(5, vec![1])]);
}

#[test]
fn deleting_a_comment_retracts_only_its_edge() {
    let links = vec![link(20, Some(1), 1), link(21, Some(2), 2), link(22, Some(3), 3), link(23, None, 4)];
    let ids = delete_comment(&addr(2), &links);
    assert_eq!(ids.len(), 1);
    assert_eq!(ids[0].bytes, addr(21).bytes);
    let remaining: Vec<&Link> =
        links.iter().filter(|l| !ids.iter().any(|i| i.same(&l.create_link_hash))).collect();
    assert_eq!(remaining.len(), 3);
    assert!(remaining.iter().all(|l| l.target.as_ref().map_or(true, |t| !t.same(&addr(2)))));
}

#[test]
fn deleting_a_post_retracts_every_edge_to_it() {
    let links = vec![link(20, Some(1), 1), link(21, Some(2), 2), link(22, Some(1), 3)];
    let ids = delete_post(&addr(1), &links);
    assert_eq!(ids.len(), 2);
    assert_eq!(ids[0].bytes, addr(20).bytes);
    assert_eq!(ids[1].bytes, addr(22).bytes);
    assert!(delete_post(&addr(9), &links).is_empty());
}

#[test]
fn latest_post_without_updates_is_original() {
    let r = get_latest_post(&addr(1), &vec![]).unwrap();
    assert_eq!(r.bytes, addr(1).bytes);
}

#[test]
fn latest_post_is_newest_update() {
    let links = vec![link(20, Some(2), 10), link(21, Some(3), 30), link(22, Some(4), 20)];
    assert_eq!(get_latest_post(&addr(1), &links).unwrap().bytes, addr(3).bytes);
}

#[test]
fn latest_post_tie_goes_to_later_edge() {
    let links = vec![link(20, Some(2), 30), link(21, Some(3), 30), link(22, Some(4), 20)];
    assert_eq!(get_latest_post(&addr(1), &links).unwrap().bytes, addr(3).bytes);
}

#[test]
fn latest_post_edge_without_action_target_is_malformed() {
    let links = vec![link(20, Some(2), 10), link(21, None, 30)];
    assert!(matches!(get_latest_post(&addr(1), &links), Err(BlogError::MalformedRecord)));
}
