use vstd::prelude::*;
use vstd::hash_map::StringHashMap;
use vstd::utf8::encode_utf8;
use crate::cache::digest::{hex_lower, sha256_digest, sha256_hex};
use crate::file_opt::FileAttr;
use crate::text::{decimal_text, i64_to_decimal, lemma_decimal_text_injective};
use crate::cache::digest::lemma_hex_lower_injective;

verus! {

/// Size in bytes of a cache node: the piece of a remote file that one
/// cache file holds. Node `n` covers the bytes from `n * NODE_SIZE` on.
pub const NODE_SIZE: i64 = 20 * 1024 * 1024;

/// How a cache is configured: the size of its nodes and the most it may hold.
pub struct CacheFlag {
    pub node_size: i64,
    pub cache_maxsize: i64,
}

/// The hexadecimal SHA-256 digest of the UTF-8 bytes of `factors`.
pub open spec fn digest_text(factors: Seq<char>) -> Seq<char> {
    hex_lower(sha256_digest(encode_utf8(factors)))
}

/// The text hashed to name the cache file of node `num` of a remote file:
/// its modification time, the cache's path, the node number and the file size.
pub open spec fn node_factors(
    last_modify: Seq<char>,
    cache_path: Seq<char>,
    num: int,
    file_size: int,
) -> Seq<char> {
    last_modify + cache_path + decimal_text(num) + decimal_text(file_size)
}

/// The path of the cache file that holds node `num` of a remote file.
pub open spec fn node_file_path(
    last_modify: Seq<char>,
    cache_path: Seq<char>,
    num: int,
    file_size: int,
) -> Seq<char> {
    "./cache/"@ + digest_text(node_factors(last_modify, cache_path, num, file_size))
}

/// Every remembered digest is the digest of the text it is filed under.
pub open spec fn memo_is_sound(memo: Map<Seq<char>, Seq<char>>) -> bool {
    forall|k: Seq<char>| #[trigger] memo.contains_key(k) ==> memo[k] == digest_text(k)
}

/// A cache of a remote file on local disk, cut into nodes of `NODE_SIZE`
/// bytes, one cache file per node. It remembers the digest that names each
/// node's cache file once it has computed it.
pub struct DiskCache {
    path: String,
    current_cache_size: i64,
    flag: CacheFlag,
    cache_node_list: StringHashMap<String>,
}

/// Where the cache keeps a node: the node's number, the position of the
/// requested byte inside it, where the node starts in the remote file, and
/// the cache file that holds it.
pub struct NodeRef {
    pub num: i64,
    pub node_offset: i64,
    pub node_start: i64,
    pub path: String,
}

impl DiskCache {
    #[verifier::type_invariant]
    spec fn memo_holds_digests(self) -> bool {
        forall|k: Seq<char>| #[trigger] self.cache_node_list@.contains_key(k)
            ==> self.cache_node_list@[k]@ == digest_text(k)
    }

    /// The remote path this cache serves.
    pub closed spec fn path_view(self) -> Seq<char> {
        self.path@
    }

    /// How many bytes the cache counts as held.
    pub closed spec fn size_view(self) -> int {
        self.current_cache_size as int
    }

    /// The configured node size and maximum size.
    pub closed spec fn flag_view(self) -> (int, int) {
        (self.flag.node_size as int, self.flag.cache_maxsize as int)
    }

    /// The remembered digests, by the text they are the digest of.
    pub closed spec fn memo(self) -> Map<Seq<char>, Seq<char>> {
        self.cache_node_list@.map_values(|v: String| v@)
    }

    /// A cache for `path`, holding nothing and remembering no digest.
    pub fn new(path: &str, flag: CacheFlag) -> (cache: DiskCache)
        ensures
            cache.path_view() == path@,
            cache.size_view() == 0,
            cache.flag_view() == (flag.node_size as int, flag.cache_maxsize as int),
            cache.memo() == Map::<Seq<char>, Seq<char>>::empty(),
            memo_is_sound(cache.memo()),
    {
        let cache = DiskCache {
            path: String::from_str(path),
            current_cache_size: 0,
            flag: flag,
            cache_node_list: StringHashMap::new(),
        };
        assert(cache.memo() =~= Map::<Seq<char>, Seq<char>>::empty());
        cache
    }

    /// Whether the cache counts no byte as held.
    pub fn is_empty(&self) -> (empty: bool)
        ensures
            empty == (self.size_view() == 0),
    {
        if self.current_cache_size == 0 {
            true
        } else {
            false
        }
    }

    /// Drops node `num` from the cache; nothing is kept per node beyond its
    /// file, so this always succeeds.
    pub fn erase(num: i64) -> (erased: bool)
        ensures
            erased,
    {
        true
    }

    /// The digest that names the cache file for `factors`: the remembered one
    /// where there is one, else computed and remembered.
    pub fn node_digest(&mut self, factors: String) -> (digest: String)
        ensures
            digest@ == digest_text(factors@),
            digest@ == hex_lower(sha256_digest(encode_utf8(factors@))),
            final(self).memo() == old(self).memo().insert(factors@, digest@),
            memo_is_sound(final(self).memo()),
            final(self).path_view() == old(self).path_view(),
            final(self).size_view() == old(self).size_view(),
            final(self).flag_view() == old(self).flag_view(),
    {
        proof {
            use_type_invariant(&*self);
        }
        let ghost before = self.cache_node_list@;
        if self.cache_node_list.contains_key(factors.as_str()) {
            let digest = self.cache_node_list.get(factors.as_str()).unwrap().clone();
            assert(self.memo() =~= old(self).memo().insert(factors@, digest@));
            digest
        } else {
            let digest = sha256_hex(factors.as_str().as_bytes());
            let key = factors.clone();
            let mut memo = StringHashMap::new();
            std::mem::swap(&mut memo, &mut self.cache_node_list);
            memo.insert(key, digest.clone());
            self.cache_node_list = memo;
            assert(self.cache_node_list@ == before.insert(factors@, digest));
            assert(self.memo() =~= old(self).memo().insert(factors@, digest@));
            digest
        }
    }

    /// Finds the node that holds byte `offset` of the remote file that
    /// `attr` describes, and the cache file that holds that node.
    pub fn locate(&mut self, attr: &FileAttr, offset: i64) -> (node: NodeRef)
        requires
            offset >= 0,
        ensures
            node.num == offset / NODE_SIZE,
            node.node_offset == offset % NODE_SIZE,
            node.node_start == node.num * NODE_SIZE,
            node.node_start + node.node_offset == offset,
            node.path@ == node_file_path(
                attr.last_modify@,
                old(self).path_view(),
                node.num as int,
                attr.file_size as int,
            ),
            node.path@ == "./cache/"@ + hex_lower(sha256_digest(encode_utf8(
                attr.last_modify@ + old(self).path_view() + decimal_text(offset / NODE_SIZE)
                    + decimal_text(attr.file_size as int),
            ))),
            final(self).memo() == old(self).memo().insert(
                node_factors(attr.last_modify@, old(self).path_view(), node.num as int, attr.file_size as int),
                digest_text(node_factors(attr.last_modify@, old(self).path_view(), node.num as int, attr.file_size as int)),
            ),
            memo_is_sound(final(self).memo()),
            final(self).path_view() == old(self).path_view(),
            final(self).size_view() == old(self).size_view(),
            final(self).flag_view() == old(self).flag_view(),
    {
        let num = offset / NODE_SIZE;
        let node_offset = offset % NODE_SIZE;
        let mut factors = attr.last_modify.clone();
        factors.append(self.path.as_str());
        let num_text = i64_to_decimal(num);
        factors.append(num_text.as_str());
        let size_text = i64_to_decimal(attr.file_size);
        factors.append(size_text.as_str());
        assert(factors@ == node_factors(attr.last_modify@, self.path_view(), num as int, attr.file_size as int));
        let digest = self.node_digest(factors);
        let mut path = String::from_str("./cache/");
        path.append(digest.as_str());
        proof {
            vstd::arithmetic::div_mod::lemma_fundamental_div_mod(offset as int, NODE_SIZE as int);
            vstd::arithmetic::mul::lemma_mul_is_commutative(num as int, NODE_SIZE as int);
        }
        NodeRef { num, node_offset, node_start: offset - node_offset, path }
    }
}

/// What to do with the cache file of the node being read, given how long
/// that file is, if it could be opened at all.
#[derive(Debug, PartialEq, Eq)]
pub enum ReadPlan {
    /// Read `count` bytes from the file, starting at the byte requested;
    /// `last` tells whether they end the read.
    Take { count: i64, last: bool },
    /// The file is missing or cannot be opened: fetch the node again.
    Refetch,
    /// The file ends before the byte requested: the read cannot go on.
    Abort,
}

/// What follows a read from a cache file.
#[derive(Debug, PartialEq, Eq)]
pub enum ReadStep {
    /// All bytes requested are gathered.
    Done,
    /// The bytes were taken; go on with the node that holds the next byte.
    Next,
    /// The file gave fewer bytes than planned: fetch the node again.
    Refetch,
    /// The position would leave the range of `i64`: the read cannot go on.
    Abort,
}

/// The plan for the cache file of the current node, given the bytes still
/// wanted, the position of the requested byte in the node, and the length of
/// the file where it could be opened.
pub open spec fn read_plan(len: int, node_offset: int, cached_len: Option<i64>) -> ReadPlan {
    match cached_len {
        None => ReadPlan::Refetch,
        Some(file_len) => {
            let rest = file_len - node_offset;
            if rest >= len {
                ReadPlan::Take { count: len as i64, last: true }
            } else if rest < 0 {
                ReadPlan::Abort
            } else {
                ReadPlan::Take { count: rest as i64, last: false }
            }
        },
    }
}

/// What every plan keeps to: it refetches exactly where the cache file
/// could not be opened and aborts exactly where the file ends before the
/// byte requested; a read it plans never takes more than the bytes still
/// wanted nor more than the file holds past that byte, and it ends the read
/// exactly when it takes all the bytes still wanted, which happens exactly
/// when the file holds them all.
pub open spec fn plan_is_bounded(
    plan: ReadPlan,
    len: int,
    node_offset: int,
    cached_len: Option<i64>,
) -> bool {
    &&& (plan is Refetch <==> cached_len is None)
    &&& (plan is Abort <==> (cached_len matches Some(f) && f - node_offset < 0))
    &&& (plan matches ReadPlan::Take { count, last } ==> {
        &&& cached_len is Some
        &&& 0 <= count <= len
        &&& count <= cached_len.unwrap() - node_offset
        &&& (last <==> count == len)
        &&& (last <==> cached_len.unwrap() - node_offset >= len)
    })
}

/// A plan never reads past the length requested: a read that ends the
/// request takes exactly the bytes still wanted, any other takes fewer, and
/// none takes more than the cache file holds past the byte requested.
pub proof fn lemma_read_plan_bounded(len: int, node_offset: int, cached_len: Option<i64>)
    requires
        0 <= len <= i64::MAX,
    ensures
        plan_is_bounded(read_plan(len, node_offset, cached_len), len, node_offset, cached_len),
{
}

/// A read of `len` bytes from `offset` on through the cache, and the bytes
/// gathered so far.
pub struct MemRead {
    offset: i64,
    len: i64,
    data: Vec<u8>,
}

impl MemRead {
    #[verifier::type_invariant]
    spec fn in_range(self) -> bool {
        self.offset >= 0 && self.len >= 0
    }

    /// The position of the next byte to read.
    pub closed spec fn offset_view(self) -> int {
        self.offset as int
    }

    /// How many bytes a read that ends the request takes.
    pub closed spec fn len_view(self) -> int {
        self.len as int
    }

    /// The bytes gathered so far.
    pub closed spec fn data_view(self) -> Seq<u8> {
        self.data@
    }

    /// Starts a read of `len` bytes at `offset`, with nothing gathered.
    pub fn new(offset: i64, len: i64) -> (read: MemRead)
        requires
            offset >= 0,
            len >= 0,
        ensures
            read.offset_view() == offset,
            read.len_view() == len,
            read.data_view() == Seq::<u8>::empty(),
    {
        MemRead { offset, len, data: Vec::new() }
    }

    /// The position of the next byte to read.
    pub fn offset(&self) -> (offset: i64)
        ensures
            offset == self.offset_view(),
            offset >= 0,
    {
        proof {
            use_type_invariant(self);
        }
        self.offset
    }

    /// Decides what to do with the cache file of the node that holds the next
    /// byte, `node_offset` bytes into that node, given the file's length where
    /// it could be opened.
    pub fn plan(&self, node_offset: i64, cached_len: Option<i64>) -> (plan: ReadPlan)
        ensures
            plan == read_plan(self.len_view(), node_offset as int, cached_len),
            plan_is_bounded(plan, self.len_view(), node_offset as int, cached_len),
    {
        proof {
            use_type_invariant(self);
            lemma_read_plan_bounded(self.len as int, node_offset as int, cached_len);
        }
        match cached_len {
            None => ReadPlan::Refetch,
            Some(file_len) => {
                let rest: i128 = file_len as i128 - node_offset as i128;
                if rest >= self.len as i128 {
                    ReadPlan::Take { count: self.len, last: true }
                } else if rest < 0 {
                    ReadPlan::Abort
                } else {
                    ReadPlan::Take { count: rest as i64, last: false }
                }
            },
        }
    }

    /// Takes the bytes read for a planned `count`: they are gathered when
    /// there are exactly `count` of them, and the position moves past them
    /// unless they end the read.
    pub fn accept(&mut self, count: i64, last: bool, bytes: Vec<u8>) -> (step: ReadStep)
        requires
            count >= 0,
        ensures
            bytes@.len() != count ==> step == ReadStep::Refetch && *final(self) == *old(self),
            bytes@.len() == count && last ==> step == ReadStep::Done
                && final(self).data_view() == old(self).data_view() + bytes@
                && final(self).offset_view() == old(self).offset_view()
                && final(self).len_view() == old(self).len_view(),
            bytes@.len() == count && !last && old(self).offset_view() + count <= i64::MAX
                ==> step == ReadStep::Next
                && final(self).data_view() == old(self).data_view() + bytes@
                && final(self).offset_view() == old(self).offset_view() + count
                && final(self).len_view() == old(self).len_view(),
            bytes@.len() == count && !last && old(self).offset_view() + count > i64::MAX
                ==> step == ReadStep::Abort && *final(self) == *old(self),
    {
        proof {
            use_type_invariant(&*self);
        }
        if bytes.len() as u64 != count as u64 {
            return ReadStep::Refetch;
        }
        if !last && count > i64::MAX - self.offset {
            return ReadStep::Abort;
        }
        let mut gathered = Vec::new();
        std::mem::swap(&mut gathered, &mut self.data);
        let mut bytes = bytes;
        gathered.append(&mut bytes);
        self.data = gathered;
        if last {
            ReadStep::Done
        } else {
            self.offset = self.offset + count;
            ReadStep::Next
        }
    }

    /// The bytes gathered.
    pub fn into_data(self) -> (data: Vec<u8>)
        ensures
            data@ == self.data_view(),
    {
        self.data
    }
}

/// What follows a read made for a copy into a file.
#[derive(Debug, PartialEq, Eq)]
pub enum CopyStep {
    /// Write the bytes read to the file; the copy is complete.
    WriteDone,
    /// Write the bytes read to the file, then read on.
    WriteMore,
    /// Write nothing and read again.
    Again,
}

/// A copy of `len` bytes from `offset` on into a local file, read through
/// the cache in pieces that keep to node boundaries after the first.
pub struct ChunkedCopy {
    offset: i64,
    len: i64,
    head: bool,
}

/// The bytes the first piece of a copy reads: up to the end of the node that
/// holds `offset`, or all `len` where they end there.
pub open spec fn head_len(offset: int, len: int) -> int {
    let node_next = NODE_SIZE - offset % (NODE_SIZE as int);
    if node_next >= len { len } else { node_next }
}

/// The bytes a later piece of a copy reads: a whole node, or all `len`
/// where fewer are left.
pub open spec fn body_len(len: int) -> int {
    if len >= NODE_SIZE { NODE_SIZE as int } else { len }
}

impl ChunkedCopy {
    #[verifier::type_invariant]
    spec fn in_range(self) -> bool {
        self.offset >= 0 && self.len >= 0 && self.offset + self.len <= i64::MAX
    }

    /// The position the next piece starts at.
    pub closed spec fn offset_view(self) -> int {
        self.offset as int
    }

    /// The bytes still to copy.
    pub closed spec fn len_view(self) -> int {
        self.len as int
    }

    /// Whether the first piece is still to be read.
    pub closed spec fn head_view(self) -> bool {
        self.head
    }

    /// Starts a copy of `len` bytes from `offset` on.
    pub fn new(offset: i64, len: i64) -> (copy: ChunkedCopy)
        requires
            offset >= 0,
            len >= 0,
            offset + len <= i64::MAX,
        ensures
            copy.offset_view() == offset,
            copy.len_view() == len,
            copy.head_view(),
    {
        ChunkedCopy { offset, len, head: true }
    }

    /// The position and the length of the next piece to read.
    pub fn request(&self) -> (piece: (i64, i64))
        ensures
            piece.0 == self.offset_view(),
            self.head_view() ==> piece.1 == head_len(self.offset_view(), self.len_view()),
            !self.head_view() ==> piece.1 == body_len(self.len_view()),
            piece.0 >= 0,
            0 <= piece.1 <= self.len_view(),
            piece.0 + piece.1 <= i64::MAX,
    {
        proof {
            use_type_invariant(self);
        }
        if self.head {
            let node_next = NODE_SIZE - self.offset % NODE_SIZE;
            if node_next >= self.len {
                (self.offset, self.len)
            } else {
                (self.offset, node_next)
            }
        } else {
            let read_len = if self.len >= NODE_SIZE { NODE_SIZE } else { self.len };
            (self.offset, read_len)
        }
    }

    /// Takes the length of what the last piece read: it is written where it
    /// is exactly the length still to copy.
    pub fn accept(&mut self, got: usize) -> (step: CopyStep)
        ensures
            final(self).offset_view() + final(self).len_view() <= old(self).offset_view() + old(self).len_view(),
            !final(self).head_view(),
            got != old(self).len_view() ==> step == CopyStep::Again
                && final(self).offset_view() == old(self).offset_view()
                && final(self).len_view() == old(self).len_view(),
            got == old(self).len_view() && old(self).head_view()
                && head_len(old(self).offset_view(), old(self).len_view()) == old(self).len_view()
                ==> step == CopyStep::WriteDone
                && final(self).offset_view() == old(self).offset_view()
                && final(self).len_view() == old(self).len_view(),
            got == old(self).len_view() && old(self).head_view()
                && head_len(old(self).offset_view(), old(self).len_view()) < old(self).len_view()
                ==> step == CopyStep::WriteMore
                && final(self).offset_view() == old(self).offset_view()
                    + head_len(old(self).offset_view(), old(self).len_view())
                && final(self).len_view() == old(self).len_view()
                    - head_len(old(self).offset_view(), old(self).len_view()),
            got == old(self).len_view() && !old(self).head_view()
                && body_len(old(self).len_view()) == old(self).len_view()
                ==> step == CopyStep::WriteDone && final(self).len_view() == 0,
            got == old(self).len_view() && !old(self).head_view()
                && body_len(old(self).len_view()) < old(self).len_view()
                ==> step == CopyStep::WriteMore
                && final(self).offset_view() == old(self).offset_view() + NODE_SIZE
                && final(self).len_view() == old(self).len_view() - NODE_SIZE,
    {
        proof {
            use_type_invariant(&*self);
        }
        if self.head {
            let node_next = NODE_SIZE - self.offset % NODE_SIZE;
            self.head = false;
            if node_next >= self.len {
                if got as u64 == self.len as u64 {
                    CopyStep::WriteDone
                } else {
                    CopyStep::Again
                }
            } else {
                if got as u64 == self.len as u64 {
                    self.len = self.len - node_next;
                    self.offset = self.offset + node_next;
                    CopyStep::WriteMore
                } else {
                    CopyStep::Again
                }
            }
        } else {
            let read_len = if self.len >= NODE_SIZE { NODE_SIZE } else { self.len };
            if got as u64 == self.len as u64 {
                if read_len == self.len {
                    self.len = 0;
                    CopyStep::WriteDone
                } else {
                    self.len = self.len - read_len;
                    self.offset = self.offset + read_len;
                    CopyStep::WriteMore
                }
            } else {
                CopyStep::Again
            }
        }
    }
}

/// Two bytes of a remote file that lie in the same node are served from
/// the same cache file, whatever the cache remembered before.
pub proof fn lemma_same_node_same_file(
    last_modify: Seq<char>,
    cache_path: Seq<char>,
    file_size: int,
    offset1: int,
    offset2: int,
)
    requires
        offset1 / (NODE_SIZE as int) == offset2 / (NODE_SIZE as int),
    ensures
        node_file_path(last_modify, cache_path, offset1 / (NODE_SIZE as int), file_size)
            == node_file_path(last_modify, cache_path, offset2 / (NODE_SIZE as int), file_size),
{
}

/// A cache file name tells texts apart exactly as SHA-256 does on their
/// whole UTF-8 bytes: two texts get the same name exactly when the digests
/// of all their bytes agree.
pub proof fn lemma_digest_identifies_whole_text(f1: Seq<char>, f2: Seq<char>)
    ensures
        digest_text(f1) == digest_text(f2) <==> sha256_digest(encode_utf8(f1)) == sha256_digest(
            encode_utf8(f2),
        ),
{
    lemma_hex_lower_injective(sha256_digest(encode_utf8(f1)), sha256_digest(encode_utf8(f2)));
}

/// Different nodes of one remote file are hashed from different texts, and
/// so share a cache file only where SHA-256 gives those different texts the
/// same digest.
pub proof fn lemma_distinct_nodes_distinct_files(
    last_modify: Seq<char>,
    cache_path: Seq<char>,
    num1: int,
    num2: int,
    file_size: int,
)
    requires
        num1 >= 0,
        num2 >= 0,
        num1 != num2,
    ensures
        node_factors(last_modify, cache_path, num1, file_size) != node_factors(
            last_modify,
            cache_path,
            num2,
            file_size,
        ),
        node_file_path(last_modify, cache_path, num1, file_size) == node_file_path(
            last_modify,
            cache_path,
            num2,
            file_size,
        ) ==> sha256_digest(encode_utf8(node_factors(last_modify, cache_path, num1, file_size)))
            == sha256_digest(encode_utf8(node_factors(last_modify, cache_path, num2, file_size))),
{
    let x = last_modify + cache_path;
    let d1 = decimal_text(num1);
    let d2 = decimal_text(num2);
    let t = decimal_text(file_size);
    let f1 = node_factors(last_modify, cache_path, num1, file_size);
    let f2 = node_factors(last_modify, cache_path, num2, file_size);
    assert(f1 == x + d1 + t);
    assert(f2 == x + d2 + t);
    lemma_decimal_text_injective(num1, num2);
    if f1 == f2 {
        assert(d1.len() == d2.len());
        assert(d1 =~= f1.subrange(x.len() as int, (x.len() + d1.len()) as int));
        assert(d2 =~= f2.subrange(x.len() as int, (x.len() + d2.len()) as int));
        assert(false);
    }
    let p = "./cache/"@;
    if p + digest_text(f1) == p + digest_text(f2) {
        assert(digest_text(f1) =~= (p + digest_text(f1)).skip(p.len() as int));
        assert(digest_text(f2) =~= (p + digest_text(f2)).skip(p.len() as int));
        lemma_digest_identifies_whole_text(f1, f2);
    }
}

} // verus!
