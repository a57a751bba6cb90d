use vstd::prelude::*;
use crate::text::{
    decimal_digits, decimal_text, digits_value, find_char_pair, first_index_of_pair,
    i64_to_decimal, is_digit, lemma_decimal_digits_are_digits, lemma_decimal_digits_value,
    lacks_char, lemma_first_index_of_pair, lemma_split_char_at, lemma_split_char_whole,
    pair_at, split_char, split_str,
};

verus! {

/// Where an `s3://` path points: the credentials, the endpoint URL, the
/// bucket and the object.
pub struct S3Location {
    pub access_key_id: String,
    pub access_key_secret: String,
    pub end_point: String,
    pub bucket_name: String,
    pub object_name: String,
}

/// The `/`-separated pieces of what follows the first `//` of a path.
pub open spec fn s3_segments(path: Seq<char>) -> Option<Seq<Seq<char>>> {
    match first_index_of_pair(path, '/', '/') {
        Some(pos) => Some(split_char(path.skip(pos + 2), '/')),
        None => None,
    }
}

/// Whether a path has the form `scheme://key@secret/host[/bucket[/object]]`:
/// a `//`, at least one `/` after it, and a `@` before that `/`.
pub open spec fn s3_path_valid(path: Seq<char>) -> bool {
    match s3_segments(path) {
        Some(v) => v.len() >= 2 && split_char(v[0], '@').len() >= 2,
        None => false,
    }
}

/// The piece at `i`, or nothing where there are not that many pieces.
pub open spec fn piece_or_empty(v: Seq<Seq<char>>, i: int) -> Seq<char> {
    if v.len() > i { v[i] } else { Seq::<char>::empty() }
}

/// The text after the first `//` of a path whose scheme holds no `/`.
proof fn lemma_after_scheme(scheme: Seq<char>, rest: Seq<char>)
    requires
        lacks_char(scheme, '/'),
    ensures
        s3_segments(scheme + seq!['/', '/'] + rest) == Some(split_char(rest, '/')),
{
    let path = scheme + seq!['/', '/'] + rest;
    let i = scheme.len() as int;
    assert forall|j: int| 0 <= j < i implies !#[trigger] pair_at(path, j, '/', '/') by {
        assert(path[j] == scheme[j]);
    }
    assert(pair_at(path, i, '/', '/'));
    lemma_first_index_of_pair(path, '/', '/', i);
    assert(path.skip(i + 2) =~= rest);
}

/// A path made of a scheme, `//`, a key, `@`, a secret, `/` and a host is
/// accepted whatever the host holds besides `/` (a port with its `:`
/// included): the key and the secret are read back, the endpoint is
/// `https://` and the host, and there is neither bucket nor object.
pub proof fn lemma_s3_path_with_host(
    scheme: Seq<char>,
    key: Seq<char>,
    secret: Seq<char>,
    host: Seq<char>,
)
    requires
        lacks_char(scheme, '/'),
        lacks_char(key, '/'),
        lacks_char(key, '@'),
        lacks_char(secret, '/'),
        lacks_char(secret, '@'),
        lacks_char(host, '/'),
    ensures
        ({
            let path = scheme + seq!['/', '/'] + key + seq!['@'] + secret + seq!['/'] + host;
            let v = s3_segments(path).unwrap();
            &&& s3_path_valid(path)
            &&& split_char(v[0], '@')[0] == key
            &&& split_char(v[0], '@')[1] == secret
            &&& v[1] == host
            &&& piece_or_empty(v, 2) == Seq::<char>::empty()
            &&& piece_or_empty(v, 3) == Seq::<char>::empty()
        }),
{
    let creds = key.push('@') + secret;
    let rest = creds.push('/') + host;
    let path = scheme + seq!['/', '/'] + key + seq!['@'] + secret + seq!['/'] + host;
    assert(path =~= scheme + seq!['/', '/'] + rest);
    lemma_after_scheme(scheme, rest);
    assert(lacks_char(creds, '/')) by {
        assert forall|i: int| 0 <= i < creds.len() implies creds[i] != '/' by {
            if i < key.len() {
                assert(creds[i] == key[i]);
            } else if i > key.len() {
                assert(creds[i] == secret[i - key.len() - 1]);
            }
        }
    }
    lemma_split_char_at(creds, host, '/');
    lemma_split_char_whole(creds, '/');
    lemma_split_char_whole(host, '/');
    let v = split_char(rest, '/');
    assert(v =~= seq![creds, host]);
    lemma_split_char_at(key, secret, '@');
    lemma_split_char_whole(key, '@');
    lemma_split_char_whole(secret, '@');
    assert(split_char(creds, '@') =~= seq![key, secret]);
}

/// A path made of a scheme, `//`, a key, `@`, a secret, and then a host, a
/// bucket and an object each after a `/`, is accepted whatever the host
/// holds besides `/` (a port with its `:` included), and each part is read
/// back: the endpoint is `https://` and the host.
pub proof fn lemma_s3_path_with_object(
    scheme: Seq<char>,
    key: Seq<char>,
    secret: Seq<char>,
    host: Seq<char>,
    bucket: Seq<char>,
    object: Seq<char>,
)
    requires
        lacks_char(scheme, '/'),
        lacks_char(key, '/'),
        lacks_char(key, '@'),
        lacks_char(secret, '/'),
        lacks_char(secret, '@'),
        lacks_char(host, '/'),
        lacks_char(bucket, '/'),
        lacks_char(object, '/'),
    ensures
        ({
            let path = scheme + seq!['/', '/'] + key + seq!['@'] + secret + seq!['/'] + host
                + seq!['/'] + bucket + seq!['/'] + object;
            let v = s3_segments(path).unwrap();
            &&& s3_path_valid(path)
            &&& split_char(v[0], '@')[0] == key
            &&& split_char(v[0], '@')[1] == secret
            &&& v[1] == host
            &&& piece_or_empty(v, 2) == bucket
            &&& piece_or_empty(v, 3) == object
        }),
{
    let creds = key.push('@') + secret;
    let tail = bucket.push('/') + object;
    let after_host = host.push('/') + tail;
    let rest = creds.push('/') + after_host;
    let path = scheme + seq!['/', '/'] + key + seq!['@'] + secret + seq!['/'] + host
        + seq!['/'] + bucket + seq!['/'] + object;
    assert(path =~= scheme + seq!['/', '/'] + rest);
    lemma_after_scheme(scheme, rest);
    assert(lacks_char(creds, '/')) by {
        assert forall|i: int| 0 <= i < creds.len() implies creds[i] != '/' by {
            if i < key.len() {
                assert(creds[i] == key[i]);
            } else if i > key.len() {
                assert(creds[i] == secret[i - key.len() - 1]);
            }
        }
    }
    lemma_split_char_at(creds, after_host, '/');
    lemma_split_char_at(host, tail, '/');
    lemma_split_char_at(bucket, object, '/');
    lemma_split_char_whole(creds, '/');
    lemma_split_char_whole(host, '/');
    lemma_split_char_whole(bucket, '/');
    lemma_split_char_whole(object, '/');
    let v = split_char(rest, '/');
    assert(v =~= seq![creds, host, bucket, object]);
    lemma_split_char_at(key, secret, '@');
    lemma_split_char_whole(key, '@');
    lemma_split_char_whole(secret, '@');
    assert(split_char(creds, '@') =~= seq![key, secret]);
}

/// Reads an `s3://key@secret/host/bucket/object` path: the key and the
/// secret are the first two `@`-separated pieces of the first segment, the
/// endpoint is `https://` and the second segment, the bucket and the object
/// are the third and fourth segments where there are that many, else empty.
/// Gives nothing where the path lacks the `//`, the host or the `@`.
pub fn parse_s3_path(path: &str) -> (loc: Option<S3Location>)
    ensures
        loc is Some <==> s3_path_valid(path@),
        loc matches Some(l) ==> {
            let v = s3_segments(path@).unwrap();
            let keys = split_char(v[0], '@');
            &&& l.access_key_id@ == keys[0]
            &&& l.access_key_secret@ == keys[1]
            &&& l.end_point@ == "https://"@ + v[1]
            &&& l.bucket_name@ == piece_or_empty(v, 2)
            &&& l.object_name@ == piece_or_empty(v, 3)
        },
{
    let pos = match find_char_pair(path, '/', '/') {
        Some(p) => p,
        None => {
            return None;
        },
    };
    let n = path.unicode_len();
    let rest = path.substring_char(pos + 2, n);
    assert(rest@ == path@.skip(pos + 2));
    let v = split_str(rest, '/');
    if v.len() < 2 {
        return None;
    }
    let keys = split_str(v[0].as_str(), '@');
    if keys.len() < 2 {
        return None;
    }
    let mut end_point = String::from_str("https://");
    end_point.append(v[1].as_str());
    let bucket_name = if v.len() > 2 { v[2].clone() } else { String::new() };
    let object_name = if v.len() > 3 { v[3].clone() } else { String::new() };
    Some(S3Location {
        access_key_id: keys[0].clone(),
        access_key_secret: keys[1].clone(),
        end_point,
        bucket_name,
        object_name,
    })
}

/// The `Range` header of a read of `len` bytes from `read_offset`: none
/// where no position was set (`-1`), an open range where `len` is `-1`,
/// else the inclusive range of the `len` bytes.
pub open spec fn range_text(read_offset: int, len: int) -> Option<Seq<char>> {
    if read_offset == -1 {
        None
    } else if len == -1 {
        Some("bytes="@ + decimal_text(read_offset) + "-"@)
    } else {
        Some("bytes="@ + decimal_text(read_offset) + "-"@ + decimal_text(read_offset + len - 1))
    }
}

/// Builds the `Range` header for a read of `len` bytes from `read_offset`.
pub fn range_header(read_offset: i64, len: i64) -> (range: Option<String>)
    requires
        read_offset != -1 && len != -1 ==> i64::MIN < read_offset + len <= i64::MAX,
    ensures
        range matches Some(r) ==> range_text(read_offset as int, len as int) == Some(r@),
        range is None <==> range_text(read_offset as int, len as int) is None,
        read_offset >= 0 && len >= 1 ==> (range matches Some(r) && r@ == "bytes="@ + decimal_digits(
            read_offset as nat,
        ) + "-"@ + decimal_digits((read_offset + len - 1) as nat)),
{
    proof {
        reveal_strlit("bytes=");
        reveal_strlit("-");
    }
    if read_offset == -1 {
        return None;
    }
    let mut r = String::from_str("bytes=");
    let start = i64_to_decimal(read_offset);
    r.append(start.as_str());
    r.append("-");
    if len != -1 {
        let end = i64_to_decimal(read_offset + len - 1);
        r.append(end.as_str());
    }
    Some(r)
}

/// A range header for a read of `len >= 1` bytes from a position names,
/// in digits, a first byte that reads back as that position and a last
/// byte that reads back as the position plus `len - 1`: the range covers
/// exactly the `len` bytes asked for.
pub proof fn lemma_range_covers_len(read_offset: int, len: int)
    requires
        read_offset >= 0,
        len >= 1,
    ensures
        exists|first: Seq<char>, last: Seq<char>|
            {
                &&& range_text(read_offset, len) == Some("bytes="@ + first + "-"@ + last)
                &&& first.len() >= 1 && last.len() >= 1
                &&& forall|i: int| 0 <= i < first.len() ==> is_digit(#[trigger] first[i])
                &&& forall|i: int| 0 <= i < last.len() ==> is_digit(#[trigger] last[i])
                &&& digits_value(first) == read_offset
                &&& digits_value(last) == read_offset + len - 1
                &&& digits_value(last) - digits_value(first) + 1 == len
            },
{
    let first = decimal_digits(read_offset as nat);
    let last = decimal_digits((read_offset + len - 1) as nat);
    lemma_decimal_digits_value(read_offset as nat);
    lemma_decimal_digits_value((read_offset + len - 1) as nat);
    lemma_decimal_digits_are_digits(read_offset as nat);
    lemma_decimal_digits_are_digits((read_offset + len - 1) as nat);
    assert(range_text(read_offset, len) == Some("bytes="@ + first + "-"@ + last));
}

/// The size of every part of a multipart upload but the last.
pub const PART_SIZE: u64 = 1024 * 1024 * 50;

/// The parts of a multipart upload of a file of `file_len` bytes, visited
/// in order: part `n` starts at `n * PART_SIZE`, and the part that reaches
/// the end of the file is the last.
pub struct PartCursor {
    part_num: u64,
    file_len: u64,
}

/// Whether the part that starts at `offset` is the last of a file of `file_len` bytes.
pub open spec fn ends_upload(offset: int, file_len: int) -> bool {
    offset + PART_SIZE >= file_len
}

proof fn lemma_part_num_small(p: u64)
    ensures
        p <= p * PART_SIZE,
{
    assert(p <= p * PART_SIZE) by (nonlinear_arith);
}

impl PartCursor {
    #[verifier::type_invariant]
    spec fn in_file(self) -> bool {
        &&& self.file_len <= u64::MAX - PART_SIZE
        &&& self.part_num == 0 || self.part_num * PART_SIZE < self.file_len
    }

    /// The number of the current part, counting from zero.
    pub closed spec fn part_num_view(self) -> int {
        self.part_num as int
    }

    /// The length of the file being uploaded.
    pub closed spec fn file_len_view(self) -> int {
        self.file_len as int
    }

    /// Starts at the first part of a file of `file_len` bytes.
    pub fn new(file_len: u64) -> (cursor: PartCursor)
        requires
            file_len <= u64::MAX - PART_SIZE,
        ensures
            cursor.part_num_view() == 0,
            cursor.file_len_view() == file_len,
    {
        PartCursor { part_num: 0, file_len }
    }

    /// Where the current part starts in the file.
    pub fn offset(&self) -> (offset: u64)
        ensures
            offset == self.part_num_view() * PART_SIZE,
            offset == 0 || offset < self.file_len_view(),
    {
        proof {
            use_type_invariant(self);
        }
        self.part_num * PART_SIZE
    }

    /// Where the file is read from for the current part: its start for the
    /// first part, one byte past its start for the others.
    pub fn seek_offset(&self) -> (seek: u64)
        ensures
            self.part_num_view() == 0 ==> seek == 0,
            self.part_num_view() > 0 ==> seek == self.part_num_view() * PART_SIZE + 1,
    {
        proof {
            use_type_invariant(self);
        }
        let offset = self.part_num * PART_SIZE;
        if self.part_num == 0 {
            0
        } else {
            offset + 1
        }
    }

    /// The number the current part is uploaded under, counting from one,
    /// cut to `i32` as the request type holds it.
    pub fn part_number(&self) -> (number: i32)
        ensures
            number == (self.part_num_view() + 1) as i32,
    {
        proof {
            use_type_invariant(self);
            lemma_part_num_small(self.part_num);
        }
        (self.part_num + 1) as i32
    }

    /// Moves to the next part, unless the current one reaches the end of the
    /// file; tells whether it moved.
    pub fn advance(&mut self) -> (moved: bool)
        ensures
            moved == !ends_upload(old(self).part_num_view() * PART_SIZE, old(self).file_len_view()),
            moved ==> final(self).part_num_view() == old(self).part_num_view() + 1,
            !moved ==> final(self).part_num_view() == old(self).part_num_view(),
            final(self).file_len_view() == old(self).file_len_view(),
    {
        proof {
            use_type_invariant(&*self);
            lemma_part_num_small(self.part_num);
            if self.part_num == 0 {
                let p = self.part_num;
                assert(p * PART_SIZE == 0) by (nonlinear_arith)
                    requires
                        p == 0,
                ;
            }
            assert(self.part_num * PART_SIZE + PART_SIZE <= u64::MAX);
        }
        let offset = self.part_num * PART_SIZE;
        if offset + PART_SIZE >= self.file_len {
            false
        } else {
            proof {
                vstd::arithmetic::mul::lemma_mul_is_distributive_add_other_way(
                    PART_SIZE as int, self.part_num as int, 1);
            }
            self.part_num = self.part_num + 1;
            true
        }
    }
}

/// How many parts a multipart upload of a file of `file_len` bytes sends:
/// one per started `PART_SIZE` bytes, and one for an empty file.
pub open spec fn part_count(file_len: int) -> int {
    if file_len == 0 {
        1
    } else {
        (file_len + PART_SIZE - 1) / (PART_SIZE as int)
    }
}

/// A part the cursor can stand on (the first, or one that starts inside the
/// file) ends the upload exactly when it is the last of `part_count` parts:
/// the upload sends `part_count(file_len)` parts and stops.
pub proof fn lemma_upload_part_count(file_len: int, p: int)
    requires
        0 <= file_len,
        0 <= p,
        p == 0 || p * PART_SIZE < file_len,
    ensures
        ends_upload(p * PART_SIZE, file_len) <==> p + 1 == part_count(file_len),
        p < part_count(file_len),
{
    let ps = PART_SIZE as int;
    if file_len == 0 {
        assert(p == 0);
        assert(p * ps == 0) by (nonlinear_arith)
            requires
                p == 0,
        ;
    } else {
        let c = (file_len + ps - 1) / ps;
        vstd::arithmetic::div_mod::lemma_fundamental_div_mod(file_len + ps - 1, ps);
        let r = (file_len + ps - 1) % ps;
        assert(0 <= r < ps);
        assert(c * ps + r == file_len + ps - 1) by (nonlinear_arith)
            requires
                file_len + ps - 1 == ps * c + r,
        ;
        assert(p * ps + ps == (p + 1) * ps) by (nonlinear_arith);
        if p + 1 == c {
            assert(p * ps + ps >= file_len) by (nonlinear_arith)
                requires
                    c * ps + r == file_len + ps - 1,
                    p + 1 == c,
                    r < ps,
            ;
        }
        if p * ps + ps >= file_len {
            assert(p + 1 >= c) by (nonlinear_arith)
                requires
                    c * ps + r == file_len + ps - 1,
                    (p + 1) * ps >= file_len,
                    0 <= r,
                    ps > 0,
            ;
        }
        if p > 0 {
            assert(p < c) by (nonlinear_arith)
                requires
                    c * ps + r == file_len + ps - 1,
                    p * ps < file_len,
                    r < ps,
                    ps > 0,
                    r >= 0,
            ;
        } else {
            assert(c >= 1) by (nonlinear_arith)
                requires
                    c * ps + r == file_len + ps - 1,
                    file_len >= 1,
                    r < ps,
                    ps > 0,
            ;
        }
    }
}

} // verus!
