use vstd::prelude::*;
use crate::types::{Address, BlogError, Comment, Details, Post};

verus! {

/// The types of the index edges.
#[derive(Clone, Copy, Debug, PartialEq, Eq, Structural)]
pub enum LinkKind {
    AllPosts,
    PostUpdates,
    PostToComments,
    AuthorToComments,
}

/// An index edge as a query returns it.
pub struct Link {
    /// The address of the action that created the edge; it names the edge.
    pub create_link_hash: Address,
    /// The target, when it is an action address.
    pub target: Option<Address>,
    /// When the edge was created, in microseconds.
    pub timestamp_us: i64,
}

/// An index edge to be written.
pub struct NewLink {
    pub base: Address,
    pub target: Address,
    pub kind: LinkKind,
}

pub struct UpdatePostInput {
    pub original_post_hash: Address,
    pub previous_post_hash: Address,
    pub updated_post: Post,
}

/// The edge that indexes a new post under the collection of all posts.
pub fn create_post(all_posts: &Address, post_hash: &Address) -> (r: NewLink)
    ensures
        r.base@ == all_posts@,
        r.target@ == post_hash@,
        r.kind == LinkKind::AllPosts,
{
    NewLink { base: all_posts.duplicate(), target: post_hash.duplicate(), kind: LinkKind::AllPosts }
}

/// The edge that indexes a new comment under its post.
pub fn create_comment(comment: &Comment, comment_hash: &Address) -> (r: NewLink)
    ensures
        r.base@ == comment.post_hash@,
        r.target@ == comment_hash@,
        r.kind == LinkKind::PostToComments,
{
    NewLink {
        base: comment.post_hash.duplicate(),
        target: comment_hash.duplicate(),
        kind: LinkKind::PostToComments,
    }
}

/// The edge that records a new version of a post under the original.
pub fn update_post(input: &UpdatePostInput, updated_post_hash: &Address) -> (r: NewLink)
    ensures
        r.base@ == input.original_post_hash@,
        r.target@ == updated_post_hash@,
        r.kind == LinkKind::PostUpdates,
{
    NewLink {
        base: input.original_post_hash.duplicate(),
        target: updated_post_hash.duplicate(),
        kind: LinkKind::PostUpdates,
    }
}

/// A record that was just written must be found again.
pub fn require_found<R>(found: Option<R>) -> (r: Result<R, BlogError>)
    ensures
        found is Some <==> r is Ok,
        found is Some ==> r == Ok::<R, BlogError>(found->0),
        found is None ==> r == Err::<R, BlogError>(BlogError::NotFound),
{
    match found {
        Some(x) => Ok(x),
        None => Err(BlogError::NotFound),
    }
}

/// The record of an original address: none when the address does not resolve,
/// an error when it names an entry instead of an action.
pub open spec fn original_of<R, D>(details: Option<Details<R, D>>) -> Result<Option<R>, BlogError> {
    match details {
        None => Ok(None),
        Some(Details::Record(d)) => Ok(Some(d.record)),
        Some(Details::Entry) => Err(BlogError::MalformedRecord),
    }
}

fn original_record<R, D>(details: Option<Details<R, D>>) -> (r: Result<Option<R>, BlogError>)
    ensures
        r == original_of(details),
{
    match details {
        None => Ok(None),
        Some(Details::Record(d)) => Ok(Some(d.record)),
        Some(Details::Entry) => Err(BlogError::MalformedRecord),
    }
}

pub fn get_original_post<R, D>(details: Option<Details<R, D>>) -> (r: Result<Option<R>, BlogError>)
    ensures
        r == original_of(details),
{
    original_record(details)
}

pub fn get_original_comment<R, D>(details: Option<Details<R, D>>) -> (r: Result<Option<R>, BlogError>)
    ensures
        r == original_of(details),
{
    original_record(details)
}

/// The deletes recorded against a comment.
pub fn get_all_deletes_for_comment<R, D>(details: Option<Details<R, D>>) -> (r: Result<
    Option<Vec<D>>,
    BlogError,
>)
    ensures
        details is None ==> r == Ok::<Option<Vec<D>>, BlogError>(None),
        details matches Some(Details::Entry) ==> r == Err::<Option<Vec<D>>, BlogError>(
            BlogError::MalformedRecord,
        ),
        details matches Some(Details::Record(d)) ==> r == Ok::<Option<Vec<D>>, BlogError>(
            Some(d.deletes),
        ),
{
    match details {
        None => Ok(None),
        Some(Details::Record(d)) => Ok(Some(d.deletes)),
        Some(Details::Entry) => Err(BlogError::MalformedRecord),
    }
}

/// The position of the first delete with the smallest timestamp.
pub open spec fn oldest_index<D>(deletes: Seq<(D, i64)>) -> int
    decreases deletes.len(),
{
    if deletes.len() <= 1 {
        0
    } else {
        let p = oldest_index(deletes.drop_last());
        if deletes.last().1 < deletes[p].1 {
            deletes.len() - 1
        } else {
            p
        }
    }
}

proof fn lemma_oldest_is_min<D>(deletes: Seq<(D, i64)>)
    requires
        deletes.len() > 0,
    ensures
        0 <= oldest_index(deletes) < deletes.len(),
        forall|j: int|
            0 <= j < deletes.len() ==> deletes[oldest_index(deletes)].1 <= #[trigger] deletes[j].1,
        forall|j: int|
            0 <= j < oldest_index(deletes) ==> deletes[oldest_index(deletes)].1 < #[trigger] deletes[j].1,
    decreases deletes.len(),
{
    if deletes.len() > 1 {
        let pre = deletes.drop_last();
        lemma_oldest_is_min(pre);
        assert forall|j: int| 0 <= j < pre.len() implies #[trigger] deletes[j] == pre[j] by {}
    }
}

/// Of the deletes recorded against a comment, each paired with its timestamp,
/// the oldest; among equal timestamps the first.
pub fn get_oldest_delete_for_comment<D>(deletes: Option<Vec<(D, i64)>>) -> (r: Option<D>)
    ensures
        deletes is None ==> r is None,
        deletes matches Some(v) ==> (v@.len() == 0 <==> r is None),
        deletes matches Some(v) ==> v@.len() > 0 ==> {
            &&& r == Some(v@[oldest_index(v@)].0)
            &&& forall|j: int| 0 <= j < v@.len() ==> v@[oldest_index(v@)].1 <= #[trigger] v@[j].1
            &&& forall|j: int| 0 <= j < oldest_index(v@) ==> v@[oldest_index(v@)].1 < #[trigger] v@[j].1
        },
{
    match deletes {
        None => None,
        Some(mut v) => {
            let n = v.len();
            if n == 0 {
                return None;
            }
            let mut best: usize = 0;
            let mut i: usize = 1;
            while i < n
                invariant
                    n == v@.len(),
                    1 <= i <= n,
                    best as int == oldest_index(v@.take(i as int)),
                    best < i,
                decreases n - i,
            {
                let ghost prefix = v@.take(i as int + 1);
                assert(prefix.drop_last() =~= v@.take(i as int));
                proof {
                    lemma_oldest_is_min(v@.take(i as int));
                }
                if v[i].1 < v[best].1 {
                    best = i;
                }
                i = i + 1;
            }
            assert(v@.take(n as int) =~= v@);
            proof {
                lemma_oldest_is_min(v@);
            }
            let (d, _) = v.swap_remove(best);
            Some(d)
        },
    }
}

/// The edges that have at least one recorded delete, in their order.
pub open spec fn tombstoned<L, D>(edges: Seq<(L, Vec<D>)>) -> Seq<(L, Vec<D>)> {
    edges.filter(|p: (L, Vec<D>)| p.1@.len() > 0)
}

/// Keeps the edges that have at least one recorded delete, in their order.
pub fn deleted_with_tombstones<L, D>(edges: Vec<(L, Vec<D>)>) -> (r: Vec<(L, Vec<D>)>)
    ensures
        r@ == tombstoned(edges@),
{
    let ghost orig = edges@;
    let ghost n: int = orig.len() as int;
    let mut rest = edges;
    let mut rev: Vec<(L, Vec<D>)> = Vec::new();
    while rest.len() > 0
        invariant
            n == orig.len(),
            rest@ == orig.take(n - rev@.len()),
            rev@.len() <= n,
            forall|j: int| 0 <= j < rev@.len() ==> #[trigger] rev@[j] == orig[n - 1 - j],
        decreases rest@.len(),
    {
        let e = rest.pop().unwrap();
        rev.push(e);
        assert(rest@ =~= orig.take(n - rev@.len()));
    }
    let mut out: Vec<(L, Vec<D>)> = Vec::new();
    assert(orig.take(0).filter(|p: (L, Vec<D>)| p.1@.len() > 0) =~= Seq::empty()) by {
        reveal(Seq::filter);
    }
    while rev.len() > 0
        invariant
            n == orig.len(),
            rev@.len() <= n,
            forall|j: int| 0 <= j < rev@.len() ==> #[trigger] rev@[j] == orig[n - 1 - j],
            out@ == orig.take(n - rev@.len()).filter(|p: (L, Vec<D>)| p.1@.len() > 0),
        decreases rev@.len(),
    {
        let ghost m = n - rev@.len();
        let e = rev.pop().unwrap();
        assert(e == orig[m]);
        let ghost pre = orig.take(m + 1);
        assert(pre.drop_last() =~= orig.take(m));
        assert(pre.last() == e);
        proof {
            reveal(Seq::filter);
        }
        if e.1.len() > 0 {
            out.push(e);
        }
    }
    assert(orig.take(n) =~= orig);
    out
}

pub fn get_deleted_comments_for_post<L, D>(edges: Vec<(L, Vec<D>)>) -> (r: Vec<(L, Vec<D>)>)
    ensures
        r@ == tombstoned(edges@),
{
    deleted_with_tombstones(edges)
}

pub fn get_deleted_comments_for_author<L, D>(edges: Vec<(L, Vec<D>)>) -> (r: Vec<(L, Vec<D>)>)
    ensures
        r@ == tombstoned(edges@),
{
    deleted_with_tombstones(edges)
}

pub open spec fn targets(l: Link, t: Seq<u8>) -> bool {
    l.target matches Some(a) && a@ == t
}

/// The names of the edges of `links` whose target is `t`, in their order.
pub open spec fn retracted(links: Seq<Link>, t: Seq<u8>) -> Seq<Seq<u8>>
    decreases links.len(),
{
    if links.len() == 0 {
        Seq::empty()
    } else {
        let rest = retracted(links.drop_last(), t);
        if targets(links.last(), t) {
            rest.push(links.last().create_link_hash@)
        } else {
            rest
        }
    }
}

pub open spec fn addresses(v: Seq<Address>) -> Seq<Seq<u8>> {
    v.map_values(|a: Address| a@)
}

/// The edges to delete so that no edge of `links` points at `target` any more.
pub fn edges_to_retract(links: &Vec<Link>, target: &Address) -> (r: Vec<Address>)
    ensures
        addresses(r@) == retracted(links@, target@),
{
    let n = links.len();
    let mut out: Vec<Address> = Vec::new();
    let mut i: usize = 0;
    while i < n
        invariant
            n == links@.len(),
            0 <= i <= n,
            addresses(out@) == retracted(links@.take(i as int), target@),
        decreases n - i,
    {
        let ghost pre = links@.take(i as int + 1);
        assert(pre.drop_last() =~= links@.take(i as int));
        let l = &links[i];
        let hit = match &l.target {
            Some(a) => a.same(target),
            None => false,
        };
        if hit {
            let id = l.create_link_hash.duplicate();
            let ghost before = out@;
            out.push(id);
            assert(addresses(out@) =~= addresses(before).push(id@));
        }
        i = i + 1;
    }
    assert(links@.take(n as int) =~= links@);
    out
}

proof fn lemma_retracted_names(links: Seq<Link>, t: Seq<u8>, x: Seq<u8>)
    ensures
        retracted(links, t).contains(x) <==> exists|j: int|
            0 <= j < links.len() && targets(links[j], t) && #[trigger] links[j].create_link_hash@ == x,
    decreases links.len(),
{
    if links.len() > 0 {
        let pre = links.drop_last();
        lemma_retracted_names(pre, t, x);
        let r = retracted(links, t);
        if retracted(links, t).contains(x) {
            let k = choose|k: int| 0 <= k < r.len() && r[k] == x;
            if targets(links.last(), t) && k == r.len() - 1 {
                assert(links[links.len() - 1].create_link_hash@ == x);
            } else {
                assert(retracted(pre, t)[k] == x);
                let j = choose|j: int|
                    0 <= j < pre.len() && targets(pre[j], t) && #[trigger] pre[j].create_link_hash@ == x;
                assert(links[j] == pre[j]);
            }
        }
        if exists|j: int|
            0 <= j < links.len() && targets(links[j], t) && #[trigger] links[j].create_link_hash@ == x {
            let j = choose|j: int|
                0 <= j < links.len() && targets(links[j], t) && #[trigger] links[j].create_link_hash@ == x;
            if j == links.len() - 1 {
                assert(r[r.len() - 1] == x);
            } else {
                assert(pre[j] == links[j]);
                let rp = retracted(pre, t);
                let k = choose|k: int| 0 <= k < rp.len() && rp[k] == x;
                assert(r[k] == x);
            }
        }
    }
}

/// Deleting by the retracted names removes exactly the edges that point at the
/// deleted address: every edge whose target is that address is named, and
/// every other edge (a sibling comment's or post's) is left in place, provided
/// that no two edges share a name.
pub proof fn lemma_retraction_exact(links: Seq<Link>, t: Seq<u8>)
    requires
        forall|i: int, j: int|
            0 <= i < links.len() && 0 <= j < links.len() && i != j
                ==> links[i].create_link_hash@ != links[j].create_link_hash@,
    ensures
        forall|i: int|
            0 <= i < links.len() ==> (retracted(links, t).contains(
                #[trigger] links[i].create_link_hash@,
            ) <==> targets(links[i], t)),
{
    assert forall|i: int| 0 <= i < links.len() implies (retracted(links, t).contains(
        #[trigger] links[i].create_link_hash@,
    ) <==> targets(links[i], t)) by {
        lemma_retracted_names(links, t, links[i].create_link_hash@);
    }
}

/// The edges from the collection of all posts to delete with a post.
pub fn delete_post(original_post_hash: &Address, all_posts_links: &Vec<Link>) -> (r: Vec<Address>)
    ensures
        addresses(r@) == retracted(all_posts_links@, original_post_hash@),
{
    edges_to_retract(all_posts_links, original_post_hash)
}

/// The edges from the comment's post to delete with a comment.
pub fn delete_comment(original_comment_hash: &Address, post_links: &Vec<Link>) -> (r: Vec<Address>)
    ensures
        addresses(r@) == retracted(post_links@, original_comment_hash@),
{
    edges_to_retract(post_links, original_comment_hash)
}

/// The position of the edge with the greatest timestamp; among equal
/// timestamps the last one.
pub open spec fn latest_index(links: Seq<Link>) -> int
    decreases links.len(),
{
    if links.len() <= 1 {
        0
    } else {
        let p = latest_index(links.drop_last());
        if links.last().timestamp_us >= links[p].timestamp_us {
            links.len() - 1
        } else {
            p
        }
    }
}

/// The latest version of a post given the update edges of the original: the
/// target of the newest edge, or the original when it has none.
pub open spec fn latest_post(original: Seq<u8>, links: Seq<Link>) -> Result<Seq<u8>, BlogError> {
    if links.len() == 0 {
        Ok(original)
    } else {
        match links[latest_index(links)].target {
            Some(a) => Ok(a@),
            None => Err(BlogError::MalformedRecord),
        }
    }
}

pub open spec fn address_result(r: Result<Address, BlogError>) -> Result<Seq<u8>, BlogError> {
    match r {
        Ok(a) => Ok(a@),
        Err(e) => Err(e),
    }
}

/// The newest edge has a timestamp no edge exceeds, and every later edge is
/// strictly older.
pub proof fn lemma_latest_is_newest(links: Seq<Link>)
    requires
        links.len() > 0,
    ensures
        0 <= latest_index(links) < links.len(),
        forall|j: int|
            0 <= j < links.len() ==> (#[trigger] links[j]).timestamp_us <= links[latest_index(
                links,
            )].timestamp_us,
        forall|j: int|
            latest_index(links) < j < links.len() ==> (#[trigger] links[j]).timestamp_us
                < links[latest_index(links)].timestamp_us,
    decreases links.len(),
{
    if links.len() > 1 {
        let pre = links.drop_last();
        lemma_latest_is_newest(pre);
        assert forall|j: int| 0 <= j < pre.len() implies #[trigger] links[j] == pre[j] by {}
    }
}

/// The address whose record is the latest version of a post, given the
/// `PostUpdates` edges of the original.
pub fn get_latest_post(original_post_hash: &Address, update_links: &Vec<Link>) -> (r: Result<
    Address,
    BlogError,
>)
    ensures
        address_result(r) == latest_post(original_post_hash@, update_links@),
        update_links@.len() == 0 ==> (r matches Ok(a) && a@ == original_post_hash@),
{
    let n = update_links.len();
    if n == 0 {
        return Ok(original_post_hash.duplicate());
    }
    let mut best: usize = 0;
    let mut i: usize = 1;
    while i < n
        invariant
            n == update_links@.len(),
            1 <= i <= n,
            best as int == latest_index(update_links@.take(i as int)),
            best < i,
        decreases n - i,
    {
        let ghost pre = update_links@.take(i as int + 1);
        assert(pre.drop_last() =~= update_links@.take(i as int));
        proof {
            lemma_latest_is_newest(update_links@.take(i as int));
        }
        if update_links[i].timestamp_us >= update_links[best].timestamp_us {
            best = i;
        }
        i = i + 1;
    }
    assert(update_links@.take(n as int) =~= update_links@);
    match &update_links[best].target {
        Some(a) => Ok(a.duplicate()),
        None => Err(BlogError::MalformedRecord),
    }
}

/// What the tombstone filter returns holds only edges with at least one
/// recorded delete, each taken from the input, and every such edge of the
/// input is in it.
pub proof fn lemma_only_tombstoned<L, D>(edges: Seq<(L, Vec<D>)>)
    ensures
        forall|i: int|
            0 <= i < tombstoned(edges).len() ==> (#[trigger] tombstoned(edges)[i]).1@.len() > 0,
        forall|i: int|
            0 <= i < edges.len() && (#[trigger] edges[i]).1@.len() > 0 ==> tombstoned(edges).contains(
                edges[i],
            ),
        forall|x: (L, Vec<D>)| #[trigger] tombstoned(edges).contains(x) ==> edges.contains(x),
{
    broadcast use vstd::seq_lib::group_filter_ensures;

    assert forall|i: int| 0 <= i < edges.len() && (#[trigger] edges[i]).1@.len() > 0 implies tombstoned(
        edges,
    ).contains(edges[i]) by {
        edges.lemma_filter_contains(|p: (L, Vec<D>)| p.1@.len() > 0, i);
    }
    assert forall|x: (L, Vec<D>)| #[trigger] tombstoned(edges).contains(x) implies edges.contains(x) by {
        edges.lemma_filter_contains_rev(|p: (L, Vec<D>)| p.1@.len() > 0, x);
    }
}

} // verus!
