use vstd::prelude::*;
use crate::text::{find_char, first_index_of};

verus! {

/// The protocol that a path names before its first `:`.
#[derive(Debug, PartialEq, Eq, Structural)]
pub enum Type {
    Types3,
    TypeFtp,
    TypeSmb,
    Unknow,
}

/// The text before the first `:` of a path, or nothing where it holds none.
pub open spec fn scheme_tag(path: Seq<char>) -> Seq<char> {
    match first_index_of(path, ':') {
        Some(i) => path.take(i),
        None => Seq::<char>::empty(),
    }
}

/// The protocol named by a scheme tag.
pub open spec fn type_of_tag(tag: Seq<char>) -> Type {
    if tag == "s3"@ {
        Type::Types3
    } else if tag == "ftp"@ {
        Type::TypeFtp
    } else if tag == "smb"@ {
        Type::TypeSmb
    } else {
        Type::Unknow
    }
}

/// Tells which protocol `path` is addressed with: `s3`, `ftp` or `smb`
/// before its first `:`, anything else being unknown.
pub fn dsptype(path: &str) -> (t: Type)
    ensures
        t == type_of_tag(scheme_tag(path@)),
{
    let pos: usize = match find_char(path, ':') {
        Some(p) => p,
        None => 0,
    };
    let tag = String::from_str(path.substring_char(0, pos));
    let s3 = String::from_str("s3");
    let ftp = String::from_str("ftp");
    let smb = String::from_str("smb");
    assert(tag@ == scheme_tag(path@));
    if tag == s3 {
        Type::Types3
    } else if tag == ftp {
        Type::TypeFtp
    } else if tag == smb {
        Type::TypeSmb
    } else {
        Type::Unknow
    }
}

} // verus!
