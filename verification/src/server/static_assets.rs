//! Which embedded file answers a request path.
use vstd::prelude::*;
use vstd::string::*;

use crate::text::{join2, strip_prefix};

verus! {

/// A path without its leading slash.
pub open spec fn relative(path: Seq<char>) -> Seq<char> {
    if path.len() > 0 && path[0] == '/' {
        path.skip(1)
    } else {
        path
    }
}

/// The file that a path names: the root and every path that ends in a slash stand
/// for the index in it.
pub open spec fn asset_key(path: Seq<char>) -> Seq<char> {
    let p = relative(path);
    if p.len() == 0 {
        "index.html"@
    } else if p.last() == '/' {
        p + "index.html"@
    } else {
        p
    }
}

/// The file that a path names.
pub fn normalize_path(path: &str) -> (r: String)
    ensures
        r@ == asset_key(path@),
{
    proof {
        reveal_strlit("/");
    }
    let trimmed = match strip_prefix(path, "/") {
        Some(rest) => {
            proof {
                assert(path@[0] == "/"@[0]);
                assert(path@.skip(1) =~= rest@);
            }
            rest
        },
        None => {
            proof {
                if path@.len() > 0 && path@[0] == '/' {
                    assert(path@.take(1) =~= "/"@);
                    assert("/"@.is_prefix_of(path@));
                }
            }
            String::from_str(path)
        },
    };
    let n: usize = trimmed.as_str().unicode_len();
    if n == 0 {
        String::from_str("index.html")
    } else if trimmed.as_str().get_char(n - 1) == '/' {
        join2(trimmed.as_str(), "index.html")
    } else {
        trimmed
    }
}

/// How a request that no route took is answered.
#[derive(Clone, Copy, PartialEq, Eq, Structural, Debug)]
pub enum AssetReply {
    /// The file with its content.
    Full,
    /// The file's headers alone.
    HeadersOnly,
    NotFound,
}

/// The answer to a request that no route took: files are read with `GET` and
/// `HEAD` alone, and only those that are there.
pub fn asset_reply(is_get: bool, is_head: bool, found: bool) -> (r: AssetReply)
    ensures
        r == if !is_get && !is_head {
            AssetReply::NotFound
        } else if !found {
            AssetReply::NotFound
        } else if is_head {
            AssetReply::HeadersOnly
        } else {
            AssetReply::Full
        },
{
    if !is_get && !is_head {
        return AssetReply::NotFound;
    }
    if !found {
        return AssetReply::NotFound;
    }
    if is_head {
        AssetReply::HeadersOnly
    } else {
        AssetReply::Full
    }
}

} // verus!
