//! Paths held as text, joined the way `std::path::Path::join` joins them on
//! Unix.

use vstd::prelude::*;
use vstd::string::*;

use crate::text::{join3, owned};

verus! {

/// `base` joined with `segment`: an absolute segment (one that starts with
/// '/') replaces the base; otherwise a '/' goes between them unless `base`
/// is empty or already ends with one.
pub open spec fn path_join(base: Seq<char>, segment: Seq<char>) -> Seq<char> {
    if segment.len() > 0 && segment[0] == '/' {
        segment
    } else if base.len() == 0 {
        segment
    } else if base.last() == '/' {
        base + segment
    } else {
        base + seq!['/'] + segment
    }
}

/// Join a segment onto a path.
pub fn join_path(base: &str, segment: &str) -> (r: String)
    ensures
        r@ == path_join(base@, segment@),
{
    let n = base.unicode_len();
    if segment.unicode_len() > 0 && segment.get_char(0) == '/' {
        owned(segment)
    } else if n == 0 {
        owned(segment)
    } else if base.get_char(n - 1) == '/' {
        let mut s = owned(base);
        s.append(segment);
        s
    } else {
        let r = join3(base, "/", segment);
        proof {
            reveal_strlit("/");
            assert("/"@ =~= seq!['/']);
        }
        r
    }
}

/// `path` lies at or below `base`, comparing whole components.
pub open spec fn path_within(path: Seq<char>, base: Seq<char>) -> bool {
    path == base || (base.len() <= path.len() && path.subrange(0, base.len() as int) == base && (
    base.len() == 0 || base.last() == '/' || path[base.len() as int] == '/'))
}

/// Whether `path` lies at or below `base`, comparing whole components.
pub fn is_within(path: &str, base: &str) -> (r: bool)
    ensures
        r == path_within(path@, base@),
{
    let n = base.unicode_len();
    let m = path.unicode_len();
    if crate::text::equals(path, base) {
        return true;
    }
    if n > m || !crate::text::starts_with(path, base) {
        return false;
    }
    if n == m {
        assert(path@.subrange(0, n as int) =~= path@);
        return false;
    }
    n == 0 || base.get_char(n - 1) == '/' || path.get_char(n) == '/'
}

} // verus!
