use vstd::prelude::*;

verus! {

/// A content address (an action or entry hash, or an agent key) as raw bytes.
pub struct Address {
    pub bytes: Vec<u8>,
}

impl View for Address {
    type V = Seq<u8>;

    open spec fn view(&self) -> Seq<u8> {
        self.bytes@
    }
}

impl Address {
    pub fn new(bytes: Vec<u8>) -> (r: Address)
        ensures
            r@ == bytes@,
    {
        Address { bytes }
    }

    /// Whether two addresses hold the same bytes.
    pub fn same(&self, other: &Address) -> (r: bool)
        ensures
            r == (self@ == other@),
    {
        let n = self.bytes.len();
        if n != other.bytes.len() {
            return false;
        }
        let mut i: usize = 0;
        while i < n
            invariant
                n == self@.len(),
                n == other@.len(),
                0 <= i <= n,
                forall|j: int| 0 <= j < i ==> self@[j] == other@[j],
            decreases n - i,
        {
            if self.bytes[i] != other.bytes[i] {
                return false;
            }
            i = i + 1;
        }
        assert(self@ =~= other@);
        true
    }

    /// A second address with the same bytes.
    pub fn duplicate(&self) -> (r: Address)
        ensures
            r@ == self@,
    {
        let mut bytes: Vec<u8> = Vec::new();
        let mut i: usize = 0;
        while i < self.bytes.len()
            invariant
                0 <= i <= self@.len(),
                bytes@ == self@.subrange(0, i as int),
            decreases self@.len() - i,
        {
            bytes.push(self.bytes[i]);
            i = i + 1;
            assert(bytes@ =~= self@.subrange(0, i as int));
        }
        assert(bytes@ =~= self@);
        Address { bytes }
    }
}

/// The key of an author; it is an address like any other.
pub type AuthorId = Address;

/// A blog post. Its fields are not constrained by this library.
pub struct Post {
    pub title: String,
    pub content: String,
}

/// A comment on a post.
pub struct Comment {
    pub content: String,
    pub post_hash: Address,
    pub author: AuthorId,
}

/// An entry of the store, decoded as one of the two entry types of the blog.
pub enum StoredEntry {
    Post(Post),
    Comment(Comment),
}

pub open spec fn is_post(e: Option<StoredEntry>) -> bool {
    e matches Some(StoredEntry::Post(_))
}

pub open spec fn is_comment(e: Option<StoredEntry>) -> bool {
    e matches Some(StoredEntry::Comment(_))
}

/// The details of a record as the store reports them: the record itself with
/// the updates and deletes recorded against it, or, when the address named an
/// entry rather than an action, no record.
pub enum Details<R, D> {
    Record(RecordDetails<R, D>),
    Entry,
}

pub struct RecordDetails<R, D> {
    pub record: R,
    /// The addresses of the actions that update this record, in the store's order.
    pub updates: Vec<Address>,
    pub deletes: Vec<D>,
}

/// Why an operation of the coordinator failed.
#[derive(Clone, Copy, Debug, PartialEq, Eq, Structural)]
pub enum BlogError {
    /// The address does not resolve.
    NotFound,
    /// A resolved record is not of the expected shape.
    MalformedRecord,
}

} // verus!
