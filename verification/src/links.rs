use vstd::prelude::*;
use crate::model::{opt_view, string_is, Item, Link};
use crate::urls::{url_join, url_joined, url_parse_ok, url_parses};

verus! {

/// The views of a sequence of links: (relation, href) pairs.
pub open spec fn links_view(links: Seq<Link>) -> Seq<(Seq<char>, Seq<char>)> {
    links.map_values(|l: Link| l@)
}

/// An href that is already absolute: it parses as a URL or is a rooted path.
pub open spec fn spec_is_absolute(href: Seq<char>) -> bool {
    url_parse_ok(href) || (href.len() > 0 && href[0] == '/')
}

/// Whether an href needs no base to be reachable.
pub fn is_absolute_href(href: &str) -> (b: bool)
    ensures
        b == spec_is_absolute(href@),
{
    if url_parses(href) {
        true
    } else {
        let n = href.unicode_len();
        if n == 0 {
            false
        } else {
            href.get_char(0) == '/'
        }
    }
}

/// The characters of `s` before its last '/'; empty when `s` has none.
pub open spec fn spec_parent(s: Seq<char>) -> Seq<char>
    decreases s.len(),
{
    if s.len() == 0 {
        s
    } else if s.last() == '/' {
        s.drop_last()
    } else {
        spec_parent(s.drop_last())
    }
}

/// The directory part of a path: everything before its last '/'.
fn parent_of(href: &str) -> (r: String)
    ensures
        r@ == spec_parent(href@),
{
    let n = href.unicode_len();
    proof {
        assert(href@.take(n as int) =~= href@);
    }
    let mut i = n;
    while i > 0
        invariant
            0 <= i <= n,
            n == href@.len(),
            spec_parent(href@.take(i as int)) == spec_parent(href@),
        decreases i,
    {
        if href.get_char(i - 1) == '/' {
            let sub = href.substring_char(0, i - 1);
            proof {
                assert(href@.take(i as int).drop_last() =~= href@.take(i as int - 1));
                assert(href@.take(i as int).last() == href@[i as int - 1]);
                assert(sub@ =~= href@.take(i as int - 1));
            }
            return String::from_str(sub);
        }
        proof {
            assert(href@.take(i as int).drop_last() =~= href@.take(i as int - 1));
            assert(href@.take(i as int).last() == href@[i as int - 1]);
        }
        i = i - 1;
    }
    proof {
        assert(href@.take(0) =~= Seq::<char>::empty());
    }
    String::new()
}

/// Whether the path holds a '/' at all.
pub open spec fn has_slash(s: Seq<char>) -> bool {
    exists|i: int| 0 <= i < s.len() && s[i] == '/'
}

/// The directory part of a non-empty path is strictly shorter than the path.
proof fn lemma_parent_shorter(s: Seq<char>)
    requires
        s.len() > 0,
    ensures
        spec_parent(s).len() < s.len(),
    decreases s.len(),
{
    if s.last() != '/' {
        if s.len() > 1 {
            lemma_parent_shorter(s.drop_last());
        } else {
            assert(s.drop_last().len() == 0);
            assert(spec_parent(s.drop_last()).len() == 0);
        }
    }
}

/// The characters of a path after its last '/'.
pub open spec fn last_segment(s: Seq<char>) -> Seq<char> {
    s.skip(spec_parent(s).len() as int + 1)
}

/// The '/'-separated parts of a path, in order: what splitting the path on
/// every '/' yields, a leading or trailing empty part included.
pub open spec fn parts_of(path: Seq<char>) -> Seq<Seq<char>>
    decreases path.len(),
    via parts_of_decreases
{
    if !has_slash(path) {
        seq![path]
    } else {
        parts_of(spec_parent(path)).push(last_segment(path))
    }
}

#[via_fn]
proof fn parts_of_decreases(path: Seq<char>) {
    if has_slash(path) {
        lemma_parent_shorter(path);
    }
}

/// The characters behind a sequence of path parts.
pub open spec fn parts_view(parts: Seq<String>) -> Seq<Seq<char>> {
    parts.map_values(|p: String| p@)
}

/// Split a path on every '/'.
fn split_parts(path: &str) -> (parts: Vec<String>)
    ensures
        parts_view(parts@) == parts_of(path@),
    decreases path@.len(),
{
    let n = path.unicode_len();
    proof {
        assert(path@.take(n as int) =~= path@);
    }
    let mut i = n;
    while i > 0
        invariant
            0 <= i <= n,
            n == path@.len(),
            forall|j: int| i <= j < n ==> path@[j] != '/',
            spec_parent(path@.take(i as int)) == spec_parent(path@),
        decreases i,
    {
        if path.get_char(i - 1) == '/' {
            let parent = path.substring_char(0, i - 1);
            let segment = path.substring_char(i, n);
            proof {
                assert(has_slash(path@));
                assert(path@.take(i as int).drop_last() =~= path@.take(i as int - 1));
                assert(path@.take(i as int).last() == path@[i as int - 1]);
                assert(parent@ =~= path@.take(i as int - 1));
                assert(parent@ == spec_parent(path@));
                assert(segment@ =~= path@.skip(i as int));
                assert(segment@ == last_segment(path@));
                lemma_parent_shorter(path@);
            }
            let mut parts = split_parts(parent);
            parts.push(String::from_str(segment));
            proof {
                assert(parts_view(parts@) =~= parts_of(parent@).push(segment@));
            }
            return parts;
        }
        proof {
            assert(path@.take(i as int).drop_last() =~= path@.take(i as int - 1));
            assert(path@.take(i as int).last() == path@[i as int - 1]);
        }
        i = i - 1;
    }
    proof {
        assert(!has_slash(path@));
    }
    let mut parts: Vec<String> = Vec::new();
    parts.push(String::from_str(path));
    proof {
        assert(parts_view(parts@) =~= seq![path@]);
    }
    parts
}

/// Path parts with every "." dropped and every ".." consuming the part
/// before it, when one is there to consume.
pub open spec fn normalize_parts(parts: Seq<Seq<char>>) -> Seq<Seq<char>>
    decreases parts.len(),
{
    if parts.len() == 0 {
        parts
    } else {
        let rest = normalize_parts(parts.drop_last());
        if parts.last() == "."@ {
            rest
        } else if parts.last() == ".."@ {
            if rest.len() == 0 {
                rest
            } else {
                rest.drop_last()
            }
        } else {
            rest.push(parts.last())
        }
    }
}

/// Work the dot segments out of a split path.
fn normalize_segments(parts: Vec<String>) -> (r: Vec<String>)
    ensures
        parts_view(r@) == normalize_parts(parts_view(parts@)),
{
    let ghost all_parts: Seq<String> = parts@;
    let ghost all: Seq<Seq<char>> = parts_view(all_parts);
    let mut remaining = parts;
    let mut stack: Vec<String> = Vec::new();
    let ghost mut k: int = 0;
    proof {
        assert(all_parts.skip(0) =~= all_parts);
        assert(all.take(0) =~= Seq::<Seq<char>>::empty());
        assert(parts_view(stack@) =~= normalize_parts(all.take(0)));
    }
    while remaining.len() > 0
        invariant
            0 <= k <= all_parts.len(),
            all == parts_view(all_parts),
            remaining@ == all_parts.skip(k),
            parts_view(stack@) == normalize_parts(all.take(k)),
        decreases remaining@.len(),
    {
        let part = remaining.remove(0);
        proof {
            assert(remaining@ =~= all_parts.skip(k + 1));
            assert(all_parts.skip(k)[0] == all_parts[k]);
            assert(part == all_parts[k]);
            assert(all[k] == all_parts[k]@);
            assert(all.take(k + 1).drop_last() =~= all.take(k));
            assert(all.take(k + 1).last() == all[k]);
        }
        if string_is(&part, ".") {
        } else if string_is(&part, "..") {
            if stack.len() > 0 {
                let _dropped = stack.pop();
            }
            proof {
                assert(parts_view(stack@) =~= normalize_parts(all.take(k + 1)));
            }
        } else {
            stack.push(part);
            proof {
                assert(parts_view(stack@) =~= normalize_parts(all.take(k + 1)));
            }
        }
        proof {
            k = k + 1;
        }
    }
    proof {
        assert(all.take(k) =~= all);
    }
    stack
}

/// Path parts put back together with '/' between them.
pub open spec fn join_slash(parts: Seq<Seq<char>>) -> Seq<char>
    decreases parts.len(),
{
    if parts.len() == 0 {
        Seq::empty()
    } else if parts.len() == 1 {
        parts[0]
    } else {
        join_slash(parts.drop_last()) + "/"@ + parts.last()
    }
}

/// Put split path parts back together with '/' between them.
fn join_parts(parts: &Vec<String>) -> (r: String)
    ensures
        r@ == join_slash(parts_view(parts@)),
{
    let ghost all: Seq<Seq<char>> = parts_view(parts@);
    if parts.len() == 0 {
        return String::new();
    }
    let mut joined = parts[0].clone();
    proof {
        assert(all.take(1).len() == 1);
        assert(all.take(1)[0] == all[0]);
        assert(joined@ == join_slash(all.take(1)));
    }
    let mut i: usize = 1;
    while i < parts.len()
        invariant
            1 <= i <= all.len(),
            all == parts_view(parts@),
            joined@ == join_slash(all.take(i as int)),
        decreases all.len() - i,
    {
        joined.append("/");
        joined.append(parts[i].as_str());
        proof {
            assert(all.take(i as int + 1).drop_last() =~= all.take(i as int));
            assert(all.take(i as int + 1).last() == all[i as int]);
            assert(joined@ == join_slash(all.take(i as int + 1)));
        }
        i = i + 1;
    }
    proof {
        assert(all.take(all.len() as int) =~= all);
    }
    joined
}

/// A path rebuilt with its dot segments worked out: "." parts dropped, each
/// ".." part consuming the part before it, and a rooting empty part put up
/// front when the path does not already start with '/' — so the result
/// always comes out rooted, as the catalog convention has it.
pub open spec fn spec_normalized(path: Seq<char>) -> Seq<char> {
    let lead: Seq<Seq<char>> = if path.len() > 0 && path[0] == '/' {
        Seq::empty()
    } else {
        seq![Seq::<char>::empty()]
    };
    join_slash(normalize_parts(lead + parts_of(path)))
}

/// Normalize a path.
fn normalize_path(path: &str) -> (r: String)
    ensures
        r@ == spec_normalized(path@),
{
    let n = path.unicode_len();
    let mut parts: Vec<String> = Vec::new();
    let rooted = n > 0 && path.get_char(0) == '/';
    if !rooted {
        parts.push(String::new());
    }
    let mut rest = split_parts(path);
    parts.append(&mut rest);
    proof {
        if path@.len() > 0 && path@[0] == '/' {
            assert(parts_view(parts@) =~= Seq::<Seq<char>>::empty() + parts_of(path@));
        } else {
            assert(parts_view(parts@) =~= seq![Seq::<char>::empty()] + parts_of(path@));
        }
    }
    let normalized = normalize_segments(parts);
    join_parts(&normalized)
}

/// Joining a relative href against a path base: the href behind the base's
/// directory part, normalized; the href alone, normalized, when the base has
/// no directory part.
pub open spec fn spec_path_joined(base: Seq<char>, rel: Seq<char>) -> Seq<char> {
    if spec_parent(base).len() == 0 {
        spec_normalized(rel)
    } else {
        spec_normalized(spec_parent(base) + "/"@ + rel)
    }
}

/// Join a relative href against a base that is a filesystem path.
fn path_join(base: &str, rel: &str) -> (r: String)
    ensures
        r@ == spec_path_joined(base@, rel@),
{
    let mut p = parent_of(base);
    if p.as_str().is_empty() {
        normalize_path(rel)
    } else {
        p.append("/");
        p.append(rel);
        normalize_path(p.as_str())
    }
}

/// What one link href absolutizes to: itself when already absolute; the URL
/// join against a URL base; the path join against a path base; nothing when
/// a base is needed but the Item has none, or when the URL join fails.
pub open spec fn spec_absolutized(href: Seq<char>, base: Option<Seq<char>>) -> Option<Seq<char>> {
    if spec_is_absolute(href) {
        Some(href)
    } else {
        match base {
            None => None,
            Some(b) => if url_parse_ok(b) {
                url_joined(b, href)
            } else {
                Some(spec_path_joined(b, href))
            },
        }
    }
}

/// Absolutize one href against the Item's base location.
fn absolutize_href(href: &String, base: &Option<String>) -> (r: Option<String>)
    ensures
        (match r {
            Some(s) => Some(s@),
            None => None::<Seq<char>>,
        }) == spec_absolutized(href@, opt_view(*base)),
{
    if is_absolute_href(href.as_str()) {
        Some(href.clone())
    } else {
        match base {
            None => None,
            Some(b) => {
                if url_parses(b.as_str()) {
                    url_join(b.as_str(), href.as_str())
                } else {
                    Some(path_join(b.as_str(), href.as_str()))
                }
            },
        }
    }
}

/// The links with every href absolutized against the base; an href that
/// cannot be absolutized is kept as written (the rewriting step fails before
/// it would use this case).
pub open spec fn spec_absolutized_links(
    links: Seq<(Seq<char>, Seq<char>)>,
    base: Option<Seq<char>>,
) -> Seq<(Seq<char>, Seq<char>)> {
    links.map_values(
        |l: (Seq<char>, Seq<char>)|
            (
                l.0,
                match spec_absolutized(l.1, base) {
                    Some(h) => h,
                    None => l.1,
                },
            ),
    )
}

/// Whether every link href can be absolutized against the base.
pub open spec fn all_links_resolvable(
    links: Seq<(Seq<char>, Seq<char>)>,
    base: Option<Seq<char>>,
) -> bool {
    forall|i: int|
        0 <= i < links.len() ==> spec_absolutized(#[trigger] links[i].1, base) is Some
}

/// The links left after removing every link of the given relation.
pub open spec fn without_rel(links: Seq<(Seq<char>, Seq<char>)>, rel: Seq<char>) -> Seq<
    (Seq<char>, Seq<char>),
>
    decreases links.len(),
{
    if links.len() == 0 {
        links
    } else {
        let rest = without_rel(links.drop_last(), rel);
        if links.last().0 == rel {
            rest
        } else {
            rest.push(links.last())
        }
    }
}

/// The href of the first link of the given relation.
pub open spec fn first_with_rel(links: Seq<(Seq<char>, Seq<char>)>, rel: Seq<char>) -> Option<
    Seq<char>,
>
    decreases links.len(),
{
    if links.len() == 0 {
        None
    } else if links[0].0 == rel {
        Some(links[0].1)
    } else {
        first_with_rel(links.skip(1), rel)
    }
}

/// Install a link: remove every link of its relation, then append it, so
/// that afterwards exactly one link of that relation remains.
pub fn set_link(links: &mut Vec<Link>, link: Link)
    ensures
        links_view(final(links)@) == without_rel(links_view(old(links)@), link.rel@).push(
            (link.rel@, link.href@),
        ),
{
    let ghost all_links: Seq<Link> = links@;
    let ghost all: Seq<(Seq<char>, Seq<char>)> = links_view(all_links);
    let mut remaining: Vec<Link> = Vec::new();
    std::mem::swap(links, &mut remaining);
    let ghost mut k: int = 0;
    proof {
        assert(all_links.skip(0) =~= all_links);
        assert(all.take(0) =~= Seq::<(Seq<char>, Seq<char>)>::empty());
        assert(links_view(links@) =~= without_rel(all.take(0), link.rel@));
    }
    while remaining.len() > 0
        invariant
            0 <= k <= all_links.len(),
            all == links_view(all_links),
            remaining@ == all_links.skip(k),
            links_view(links@) == without_rel(all.take(k), link.rel@),
        decreases remaining@.len(),
    {
        let l = remaining.remove(0);
        proof {
            assert(remaining@ =~= all_links.skip(k + 1));
            assert(all_links.skip(k)[0] == all_links[k]);
            assert(l == all_links[k]);
            assert(all[k] == all_links[k]@);
            assert(l@ == all[k]);
            assert(all.take(k + 1).drop_last() =~= all.take(k));
            assert(all.take(k + 1).last() == all[k]);
        }
        if !string_is(&l.rel, link.rel.as_str()) {
            links.push(l);
            proof {
                assert(links_view(links@) =~= without_rel(all.take(k + 1), link.rel@));
            }
        }
        proof {
            k = k + 1;
        }
    }
    proof {
        assert(all.take(k) =~= all);
    }
    let ghost before: Seq<(Seq<char>, Seq<char>)> = links_view(links@);
    links.push(link);
    proof {
        assert(links_view(links@) =~= before.push((link.rel@, link.href@)));
    }
}

/// The href of the Item's first link of this relation, if any.
fn find_rel_href(links: &Vec<Link>, rel: &str) -> (r: Option<String>)
    ensures
        (match r {
            Some(h) => Some(h@),
            None => None::<Seq<char>>,
        }) == first_with_rel(links_view(links@), rel@),
{
    let ghost all: Seq<(Seq<char>, Seq<char>)> = links_view(links@);
    let mut i: usize = 0;
    proof {
        assert(all.skip(0) =~= all);
    }
    while i < links.len()
        invariant
            0 <= i <= links@.len(),
            all == links_view(links@),
            first_with_rel(all.skip(i as int), rel@) == first_with_rel(all, rel@),
        decreases links@.len() - i,
    {
        proof {
            assert(all.skip(i as int)[0] == all[i as int]);
        }
        if string_is(&links[i].rel, rel) {
            let h = links[i].href.clone();
            return Some(h);
        }
        proof {
            assert(all.skip(i as int).skip(1) =~= all.skip(i as int + 1));
        }
        i = i + 1;
    }
    proof {
        assert(all.skip(links@.len() as int) =~= Seq::<(Seq<char>, Seq<char>)>::empty());
    }
    None
}

/// Error of the link rewriting step: some relative link could not be made
/// absolute. Holds that link's href.
#[derive(Debug)]
pub enum LinkError {
    /// Absolutizing this href needed a base location that the Item does not
    /// have, or the join against the base failed.
    LinkResolution(String),
}

impl LinkError {
    /// What `message` returns, as a sequence of characters.
    pub open spec fn spec_message(self) -> Seq<char> {
        match self {
            LinkError::LinkResolution(href) => "cannot resolve link: "@ + href@,
        }
    }

    /// The failure rendered as text.
    pub fn message(&self) -> (m: String)
        ensures
            m@ == self.spec_message(),
    {
        match self {
            LinkError::LinkResolution(href) => String::from_str("cannot resolve link: ").concat(
                href.as_str(),
            ),
        }
    }
}

/// The Item's links once its new home is known: every href absolutized
/// against the base; the prior "self" link, if any, rotated to "canonical"
/// (replacing any other "canonical" link); and one new "self" link at the
/// final path, replacing any prior "self" link, appended last.
pub open spec fn spec_finalized(
    links: Seq<(Seq<char>, Seq<char>)>,
    base: Option<Seq<char>>,
    path: Seq<char>,
) -> Seq<(Seq<char>, Seq<char>)> {
    let abs = spec_absolutized_links(links, base);
    let rotated = match first_with_rel(abs, "self"@) {
        Some(h) => without_rel(abs, "canonical"@).push(("canonical"@, h)),
        None => abs,
    };
    without_rel(rotated, "self"@).push(("self"@, path))
}

/// Rewrite the Item's links for its new home at `path`: absolutize every
/// link against the Item's base location, rotate the prior "self" link to
/// "canonical", and install a new "self" link pointing at `path`. Fails, and
/// only fails, when some relative link cannot be absolutized; the links are
/// then left mid-rewrite, and the failed operation persists nothing.
pub fn update_links(item: &mut Item, path: &str) -> (r: Result<(), LinkError>)
    ensures
        (r is Ok) == all_links_resolvable(
            links_view(old(item).links@),
            opt_view(old(item).base_href),
        ),
        r is Ok ==> links_view(final(item).links@) == spec_finalized(
            links_view(old(item).links@),
            opt_view(old(item).base_href),
            path@,
        ),
        r matches Err(e) ==> (match e {
            LinkError::LinkResolution(h) => exists|i: int|
                0 <= i < old(item).links@.len() && (#[trigger] old(item).links@[i]).href@ == h@
                    && spec_absolutized(h@, opt_view(old(item).base_href)) is None,
        }),
        final(item).id == old(item).id,
        final(item).assets == old(item).assets,
        final(item).base_href == old(item).base_href,
{
    let ghost all_links: Seq<Link> = item.links@;
    let ghost all: Seq<(Seq<char>, Seq<char>)> = links_view(all_links);
    let ghost base: Option<Seq<char>> = opt_view(item.base_href);
    let mut remaining: Vec<Link> = Vec::new();
    std::mem::swap(&mut item.links, &mut remaining);
    let ghost mut k: int = 0;
    proof {
        assert(all_links.skip(0) =~= all_links);
        assert(all.take(0) =~= Seq::<(Seq<char>, Seq<char>)>::empty());
        assert(links_view(item.links@) =~= spec_absolutized_links(all.take(0), base));
    }
    while remaining.len() > 0
        invariant
            0 <= k <= all_links.len(),
            all_links == old(item).links@,
            all == links_view(all_links),
            remaining@ == all_links.skip(k),
            base == opt_view(item.base_href),
            links_view(item.links@) == spec_absolutized_links(all.take(k), base),
            all_links_resolvable(all.take(k), base),
            item.id == old(item).id,
            item.assets == old(item).assets,
            item.base_href == old(item).base_href,
        decreases remaining@.len(),
    {
        let l = remaining.remove(0);
        proof {
            assert(remaining@ =~= all_links.skip(k + 1));
            assert(all_links.skip(k)[0] == all_links[k]);
            assert(l == all_links[k]);
            assert(all[k] == all_links[k]@);
            assert(l@ == all[k]);
            assert(all.take(k + 1).drop_last() =~= all.take(k));
            assert(all.take(k + 1).last() == all[k]);
        }
        match absolutize_href(&l.href, &item.base_href) {
            Some(href) => {
                proof {
                    assert(l.rel@ == all[k].0 && l.href@ == all[k].1);
                    assert(spec_absolutized(all[k].1, base) == Some(href@));
                }
                let ghost pre: Seq<Link> = item.links@;
                let fresh = Link { rel: l.rel, href };
                item.links.push(fresh);
                proof {
                    assert(item.links@ == pre.push(fresh));
                    assert(links_view(pre).len() == pre.len());
                    assert(spec_absolutized_links(all.take(k), base).len() == all.take(k).len());
                    assert(pre.len() == k);
                    assert(item.links@.len() == k + 1);
                    assert(all.take(k + 1).len() == k + 1);
                    assert(spec_absolutized_links(all.take(k + 1), base).len() == k + 1);
                    assert forall|i: int| 0 <= i < item.links@.len() implies links_view(
                        item.links@,
                    )[i] == spec_absolutized_links(all.take(k + 1), base)[i] by {
                        assert(all.take(k + 1)[i] == all[i]);
                        if i < k {
                            assert(item.links@[i] == pre[i]);
                            assert(links_view(pre)[i] == spec_absolutized_links(
                                all.take(k),
                                base,
                            )[i]);
                            assert(all.take(k)[i] == all[i]);
                        } else {
                            assert(item.links@[i] == fresh);
                        }
                    }
                    assert(links_view(item.links@) =~= spec_absolutized_links(
                        all.take(k + 1),
                        base,
                    ));
                    assert forall|i: int| 0 <= i < all.take(k + 1).len() implies spec_absolutized(
                        #[trigger] all.take(k + 1)[i].1,
                        base,
                    ) is Some by {
                        if i < k {
                            assert(all.take(k)[i] == all.take(k + 1)[i]);
                            assert(spec_absolutized(all.take(k)[i].1, base) is Some);
                        }
                    }
                }
            },
            None => {
                proof {
                    assert(l.rel@ == all[k].0 && l.href@ == all[k].1);
                    assert(spec_absolutized(all[k].1, base) is None);
                    assert(!all_links_resolvable(all, base));
                    assert(old(item).links@[k] == l);
                }
                return Err(LinkError::LinkResolution(l.href));
            },
        }
        proof {
            k = k + 1;
        }
    }
    proof {
        assert(all.take(k) =~= all);
    }
    match find_rel_href(&item.links, "self") {
        Some(h) => {
            let canonical = Link { rel: String::from_str("canonical"), href: h };
            set_link(&mut item.links, canonical);
        },
        None => {},
    }
    let self_link = Link { rel: String::from_str("self"), href: String::from_str(path) };
    set_link(&mut item.links, self_link);
    Ok(())
}

/// How many links of a relation a sequence holds.
pub open spec fn count_rel(links: Seq<(Seq<char>, Seq<char>)>, rel: Seq<char>) -> int
    decreases links.len(),
{
    if links.len() == 0 {
        0
    } else {
        count_rel(links.drop_last(), rel) + if links.last().0 == rel {
            1int
        } else {
            0int
        }
    }
}

/// Removing a relation leaves no link of it.
proof fn lemma_without_rel_removes(links: Seq<(Seq<char>, Seq<char>)>, rel: Seq<char>)
    ensures
        count_rel(without_rel(links, rel), rel) == 0,
    decreases links.len(),
{
    if links.len() > 0 {
        lemma_without_rel_removes(links.drop_last(), rel);
        if links.last().0 != rel {
            let w = without_rel(links.drop_last(), rel);
            assert(w.push(links.last()).drop_last() =~= w);
            assert(w.push(links.last()).last() == links.last());
        }
    }
}

/// Removing one relation does not touch the count of another.
proof fn lemma_without_rel_keeps(
    links: Seq<(Seq<char>, Seq<char>)>,
    rel: Seq<char>,
    other: Seq<char>,
)
    requires
        rel != other,
    ensures
        count_rel(without_rel(links, rel), other) == count_rel(links, other),
    decreases links.len(),
{
    if links.len() > 0 {
        lemma_without_rel_keeps(links.drop_last(), rel, other);
        if links.last().0 != rel {
            let w = without_rel(links.drop_last(), rel);
            assert(w.push(links.last()).drop_last() =~= w);
            assert(w.push(links.last()).last() == links.last());
        }
    }
}

/// A link of another relation survives the removal.
proof fn lemma_without_rel_member(
    links: Seq<(Seq<char>, Seq<char>)>,
    rel: Seq<char>,
    l: (Seq<char>, Seq<char>),
)
    requires
        l.0 != rel,
    ensures
        (exists|i: int| 0 <= i < links.len() && links[i] == l) ==> (exists|i: int|
            0 <= i < without_rel(links, rel).len() && without_rel(links, rel)[i] == l),
    decreases links.len(),
{
    if links.len() > 0 {
        lemma_without_rel_member(links.drop_last(), rel, l);
        let prefix = links.drop_last();
        let w = without_rel(prefix, rel);
        if exists|i: int| 0 <= i < links.len() && links[i] == l {
            let i = choose|i: int| 0 <= i < links.len() && links[i] == l;
            if i < links.len() - 1 {
                assert(prefix[i] == l);
                assert(exists|j: int| 0 <= j < w.len() && w[j] == l);
                let j = choose|j: int| 0 <= j < w.len() && w[j] == l;
                if links.last().0 == rel {
                    assert(without_rel(links, rel) == w);
                    assert(without_rel(links, rel)[j] == l);
                } else {
                    assert(without_rel(links, rel) == w.push(links.last()));
                    assert(w.push(links.last())[j] == w[j]);
                    assert(without_rel(links, rel)[j] == l);
                }
            } else {
                assert(links.last() == l);
                assert(without_rel(links, rel) == w.push(l));
                assert(w.push(l)[w.len() as int] == l);
                assert(without_rel(links, rel)[w.len() as int] == l);
            }
        }
    }
}

/// Law: after the links are finalized there is exactly one "self" link and
/// it points at the Item's new path — it stands last; and when a "self" link
/// existed among the absolutized links, exactly one "canonical" link
/// remains, carrying that prior self href.
pub proof fn lemma_link_invariant(
    links: Seq<(Seq<char>, Seq<char>)>,
    base: Option<Seq<char>>,
    path: Seq<char>,
)
    ensures
        count_rel(spec_finalized(links, base, path), "self"@) == 1,
        spec_finalized(links, base, path).last() == ("self"@, path),
        first_with_rel(spec_absolutized_links(links, base), "self"@) matches Some(h) ==> {
            &&& count_rel(spec_finalized(links, base, path), "canonical"@) == 1
            &&& exists|i: int|
                0 <= i < spec_finalized(links, base, path).len() && spec_finalized(
                    links,
                    base,
                    path,
                )[i] == ("canonical"@, h)
        },
{
    reveal_strlit("self");
    reveal_strlit("canonical");
    assert("self"@.len() == 4);
    assert("canonical"@.len() == 9);
    let abs = spec_absolutized_links(links, base);
    let rotated = match first_with_rel(abs, "self"@) {
        Some(h) => without_rel(abs, "canonical"@).push(("canonical"@, h)),
        None => abs,
    };
    let fin = without_rel(rotated, "self"@).push(("self"@, path));
    assert(fin == spec_finalized(links, base, path));
    lemma_without_rel_removes(rotated, "self"@);
    assert(fin.drop_last() =~= without_rel(rotated, "self"@));
    assert(fin.last() == ("self"@, path));
    assert(count_rel(fin, "self"@) == 1);
    match first_with_rel(abs, "self"@) {
        Some(h) => {
            lemma_without_rel_removes(abs, "canonical"@);
            let rotated0 = without_rel(abs, "canonical"@);
            assert(rotated == rotated0.push(("canonical"@, h)));
            assert(rotated.drop_last() =~= rotated0);
            assert(rotated.last() == ("canonical"@, h));
            assert(count_rel(rotated, "canonical"@) == 1);
            lemma_without_rel_keeps(rotated, "self"@, "canonical"@);
            assert(count_rel(fin, "canonical"@) == 1);
            assert(rotated[rotated.len() - 1] == ("canonical"@, h));
            lemma_without_rel_member(rotated, "self"@, ("canonical"@, h));
            let w = without_rel(rotated, "self"@);
            let j = choose|j: int| 0 <= j < w.len() && w[j] == ("canonical"@, h);
            assert(fin[j] == ("canonical"@, h));
        },
        None => {},
    }
}

/// The file the finalized Item is persisted to, beside its assets:
/// `<id>.json`.
pub fn item_file_name(id: &str) -> (r: String)
    ensures
        r@ == id@ + ".json"@,
{
    let mut s = String::from_str(id);
    s.append(".json");
    s
}

} // verus!
