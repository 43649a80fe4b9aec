//! Resolving the locations of a repository index.

use vstd::prelude::*;
use vstd::string::StrSliceExecFns;

use crate::text::concat_with;

verus! {

/// What stands before the last slash of a url, if it has one.
pub open spec fn before_last_slash(url: Seq<char>) -> Option<Seq<char>>
    decreases url.len(),
{
    if url.len() == 0 {
        None
    } else if url.last() == '/' {
        Some(url.drop_last())
    } else {
        before_last_slash(url.drop_last())
    }
}

/// The directory that a url is in; a url without a slash is kept.
pub open spec fn parent(url: Seq<char>) -> Seq<char> {
    match before_last_slash(url) {
        Some(parent) => parent,
        None => url,
    }
}

/// Whether a location points out of the directory it is seen from.
pub open spec fn points_up(href: Seq<char>) -> bool {
    href.len() >= 3 && href[0] == '.' && href[1] == '.' && href[2] == '/'
}

/// The url of a location: every `../` in front of it leads to the parent of the
/// base url, and the rest is appended.
pub open spec fn resolved(base: Seq<char>, href: Seq<char>) -> Seq<char>
    decreases href.len(),
{
    if points_up(href) {
        resolved(parent(base), href.skip(3))
    } else {
        base + seq!['/'] + href
    }
}

/// The directory that a url is in; a url without a slash is kept.
fn parent_url(url: &str) -> (parent: &str)
    ensures
        parent@ == self::parent(url@),
{
    let len = url.unicode_len();
    let mut end: usize = len;
    assert(url@.take(len as int) =~= url@);
    while end > 0
        invariant
            end <= len,
            len == url@.len(),
            before_last_slash(url@) == before_last_slash(url@.take(end as int)),
        decreases end,
    {
        assert(url@.take(end as int).drop_last() =~= url@.take(end - 1));
        if url.get_char(end - 1) == '/' {
            return url.substring_char(0, end - 1);
        }
        end -= 1;
    }
    url
}

/// Join a repodata location onto the base url. openSUSE's per-architecture
/// indexes point back out of their directory with `../`.
pub fn join_url(base_url: &str, href: &str) -> (url: String)
    ensures
        url@ == resolved(base_url@, href@),
{
    let mut base = base_url;
    let mut rest = href;
    let mut len = rest.unicode_len();
    while len >= 3 && rest.get_char(0) == '.' && rest.get_char(1) == '.' && rest.get_char(2) == '/'
        invariant
            len == rest@.len(),
            resolved(base_url@, href@) == resolved(base@, rest@),
        decreases len,
    {
        base = parent_url(base);
        rest = rest.substring_char(3, len);
        len -= 3;
    }
    proof {
        reveal_strlit("/");
        assert("/"@ =~= seq!['/']);
    }
    concat_with(base, "/", rest)
}

/// Taking a directory away undoes appending it.
proof fn lemma_parent(base: Seq<char>, dir: Seq<char>)
    requires
        !dir.contains('/'),
    ensures
        parent(base + seq!['/'] + dir) == base,
    decreases dir.len(),
{
    let url = base + seq!['/'] + dir;
    if dir.len() == 0 {
        assert(url.drop_last() =~= base);
    } else {
        assert(dir.contains(dir.last()));
        assert(forall|c: char| dir.drop_last().contains(c) ==> dir.contains(c));
        assert(url.drop_last() =~= base + seq!['/'] + dir.drop_last());
        lemma_parent(base, dir.drop_last());
    }
}

/// A location that does not point up is appended to the base url.
pub proof fn law_plain_location_is_appended(base: Seq<char>, href: Seq<char>)
    requires
        !points_up(href),
    ensures
        resolved(base, href) == base + seq!['/'] + href,
{
}

/// A location that points up from a directory leads to the same url as the rest
/// of it from the directory above.
pub proof fn law_pointing_up_leaves_the_directory(
    base: Seq<char>,
    dir: Seq<char>,
    href: Seq<char>,
)
    requires
        !dir.contains('/'),
    ensures
        resolved(base + seq!['/'] + dir, seq!['.', '.', '/'] + href) == resolved(base, href),
{
    lemma_parent(base, dir);
    assert((seq!['.', '.', '/'] + href).skip(3) =~= href);
}

/// A base url without a slash is kept, however often a location points up.
pub proof fn law_pointing_up_stops_at_the_first_segment(base: Seq<char>, href: Seq<char>)
    requires
        !base.contains('/'),
    ensures
        resolved(base, seq!['.', '.', '/'] + href) == resolved(base, href),
{
    lemma_no_slash(base);
    assert((seq!['.', '.', '/'] + href).skip(3) =~= href);
}

proof fn lemma_no_slash(url: Seq<char>)
    requires
        !url.contains('/'),
    ensures
        before_last_slash(url) is None,
    decreases url.len(),
{
    if url.len() > 0 {
        assert(url.contains(url.last()));
        assert(forall|c: char| url.drop_last().contains(c) ==> url.contains(c));
        lemma_no_slash(url.drop_last());
    }
}

/// A location that does not begin with `../` is what follows the base url and a
/// slash.
pub proof fn law_other_locations_are_appended(base: Seq<char>, href: Seq<char>)
    requires
        !(href.len() >= 3 && href[0] == '.' && href[1] == '.' && href[2] == '/'),
    ensures
        resolved(base, href) == base + seq!['/'] + href,
{
}

} // verus!
