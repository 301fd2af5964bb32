//! The bookmark catalog: a depth-first walk of a browser profile's bookmark
//! tree that keeps web links and records the folder breadcrumb of each.
use vstd::prelude::*;
use crate::keywords::{clean_keywords, normalize_keywords, same_keywords, sorted_keywords, views};
use crate::models::{opt_view, BookmarkEntry, BookmarkView};
use crate::query::bookmark_views;
use crate::text::{
    append_chars, blank, encode, from_chars, has_prefix, hex_of, is_blank, starts_with,
    to_chars, trim_chars, trim_seq, utf8_bytes, utf8_of,
};

verus! {

/// One node of a profile's bookmark tree, with the fields the walk reads.
#[derive(Debug)]
pub struct BookmarkNode {
    /// `"folder"`, `"url"`, or anything else (ignored).
    pub node_type: Option<String>,
    pub name: Option<String>,
    pub url: Option<String>,
    pub guid: Option<String>,
    pub id: Option<String>,
    pub children: Option<Vec<BookmarkNode>>,
}

/// The SHA-1 digest of some bytes.
pub uninterp spec fn sha1_of(data: Seq<u8>) -> Seq<u8>;

/// Relies on `sha1::Sha1` through `Digest::digest`: the SHA-1 digest of
/// `data`, which is 20 bytes long.
#[verifier::external_body]
pub(crate) fn sha1_digest(data: &[u8]) -> (r: Vec<u8>)
    ensures
        r@ == sha1_of(data@),
        r@.len() == 20,
{
    <sha1::Sha1 as sha1::Digest>::digest(data).to_vec()
}

pub open spec fn http_prefix() -> Seq<char> {
    seq!['h', 't', 't', 'p', ':', '/', '/']
}

pub open spec fn https_prefix() -> Seq<char> {
    seq!['h', 't', 't', 'p', 's', ':', '/', '/']
}

/// A web link: it starts with `http://` or `https://`.
pub open spec fn web_url(u: Seq<char>) -> bool {
    has_prefix(u, http_prefix()) || has_prefix(u, https_prefix())
}

/// Whether a bookmark URL uses a web scheme.
pub fn is_supported_url(url: &[char]) -> (r: bool)
    ensures
        r == web_url(url@),
{
    let http = ['h', 't', 't', 'p', ':', '/', '/'];
    let https = ['h', 't', 't', 'p', 's', ':', '/', '/'];
    assert(http@ == http_prefix());
    assert(https@ == https_prefix());
    starts_with(url, &http) || starts_with(url, &https)
}

/// The label shown for one of the tree's named roots.
pub open spec fn root_label(key: Seq<char>) -> Option<Seq<char>> {
    if key == seq!['b', 'o', 'o', 'k', 'm', 'a', 'r', 'k', '_', 'b', 'a', 'r'] {
        Some(seq!['书', '签', '栏'])
    } else if key == seq!['o', 't', 'h', 'e', 'r'] {
        Some(seq!['其', '他', '书', '签'])
    } else if key == seq!['s', 'y', 'n', 'c', 'e', 'd'] {
        Some(seq!['已', '同', '步'])
    } else {
        None
    }
}


/// The label shown for a named root of the bookmark tree, if it has one.
pub fn root_display_label(key: &str) -> (r: Option<String>)
    ensures
        opt_view(r) == root_label(key@),
{
    let k = to_chars(key);
    let bar = ['b', 'o', 'o', 'k', 'm', 'a', 'r', 'k', '_', 'b', 'a', 'r'];
    let other = ['o', 't', 'h', 'e', 'r'];
    let synced = ['s', 'y', 'n', 'c', 'e', 'd'];
    assert(bar@ == seq!['b', 'o', 'o', 'k', 'm', 'a', 'r', 'k', '_', 'b', 'a', 'r']);
    assert(other@ == seq!['o', 't', 'h', 'e', 'r']);
    assert(synced@ == seq!['s', 'y', 'n', 'c', 'e', 'd']);
    if crate::keywords::chars_eq(k.as_slice(), &bar) {
        let v = ['书', '签', '栏'];
        assert(v@ == seq!['书', '签', '栏']);
        Some(from_chars(&v))
    } else if crate::keywords::chars_eq(k.as_slice(), &other) {
        let v = ['其', '他', '书', '签'];
        assert(v@ == seq!['其', '他', '书', '签']);
        Some(from_chars(&v))
    } else if crate::keywords::chars_eq(k.as_slice(), &synced) {
        let v = ['已', '同', '步'];
        assert(v@ == seq!['已', '同', '步']);
        Some(from_chars(&v))
    } else {
        None
    }
}

/// The label shown for a profile directory: `Default` has its own.
pub open spec fn profile_label(raw: Seq<char>) -> Seq<char> {
    if raw == seq!['D', 'e', 'f', 'a', 'u', 'l', 't'] {
        seq!['默', '认']
    } else {
        raw
    }
}

/// The label shown for a profile directory name.
pub fn profile_display_label(raw: &str) -> (r: String)
    ensures
        r@ == profile_label(raw@),
{
    let k = to_chars(raw);
    let d = ['D', 'e', 'f', 'a', 'u', 'l', 't'];
    assert(d@ == seq!['D', 'e', 'f', 'a', 'u', 'l', 't']);
    if crate::keywords::chars_eq(k.as_slice(), &d) {
        let v = ['默', '认'];
        assert(v@ == seq!['默', '认']);
        from_chars(&v)
    } else {
        from_chars(k.as_slice())
    }
}

/// `parts` joined with `sep` between neighbours.
pub open spec fn join_seq(parts: Seq<Seq<char>>, sep: Seq<char>) -> Seq<char>
    decreases parts.len(),
{
    if parts.len() == 0 {
        Seq::empty()
    } else if parts.len() == 1 {
        parts[0]
    } else {
        join_seq(parts.drop_last(), sep) + sep + parts.last()
    }
}

/// The separator of folder breadcrumbs.
pub open spec fn crumb_sep() -> Seq<char> {
    seq![' ', '/', ' ']
}

/// A breadcrumb's folders joined with ` / `.
pub fn join_path(parts: &Vec<String>) -> (r: Vec<char>)
    ensures
        r@ == join_seq(views(parts@), crumb_sep()),
{
    let sep = [' ', '/', ' '];
    assert(sep@ == crumb_sep());
    let mut out: Vec<char> = Vec::new();
    let mut k: usize = 0;
    while k < parts.len()
        invariant
            k <= parts@.len(),
            sep@ == crumb_sep(),
            out@ == join_seq(views(parts@.subrange(0, k as int)), crumb_sep()),
        decreases parts@.len() - k,
    {
        let p = to_chars(parts[k].as_str());
        proof {
            let pre = views(parts@.subrange(0, k as int));
            let post = views(parts@.subrange(0, k + 1));
            assert(post.drop_last() =~= pre);
            assert(post.last() == p@);
        }
        if k > 0 {
            append_chars(&mut out, &sep);
        }
        append_chars(&mut out, p.as_slice());
        k = k + 1;
    }
    assert(parts@.subrange(0, parts@.len() as int) == parts@);
    out
}

/// Left-to-right split of `s` at `c`: the finished pieces and the piece in
/// progress.
pub open spec fn split_state(s: Seq<char>, c: char) -> (Seq<Seq<char>>, Seq<char>)
    decreases s.len(),
{
    if s.len() == 0 {
        (Seq::empty(), Seq::empty())
    } else {
        let (done, cur) = split_state(s.drop_last(), c);
        if s.last() == c {
            (done.push(cur), Seq::empty())
        } else {
            (done, cur.push(s.last()))
        }
    }
}

/// The pieces of `s` between occurrences of `c`, as `str::split` gives them.
pub open spec fn split_seq(s: Seq<char>, c: char) -> Seq<Seq<char>> {
    split_state(s, c).0.push(split_state(s, c).1)
}

/// The pieces of `s` between occurrences of `c`.
pub fn split_chars(s: &[char], c: char) -> (r: Vec<Vec<char>>)
    ensures
        r@.len() == split_seq(s@, c).len(),
        forall|i: int| 0 <= i < r@.len() ==> (#[trigger] r@[i])@ == split_seq(s@, c)[i],
{
    let mut done: Vec<Vec<char>> = Vec::new();
    let mut cur: Vec<char> = Vec::new();
    let mut k: usize = 0;
    while k < s.len()
        invariant
            k <= s@.len(),
            done@.len() == split_state(s@.subrange(0, k as int), c).0.len(),
            forall|i: int|
                0 <= i < done@.len() ==> (#[trigger] done@[i])@ == split_state(
                    s@.subrange(0, k as int),
                    c,
                ).0[i],
            cur@ == split_state(s@.subrange(0, k as int), c).1,
        decreases s@.len() - k,
    {
        assert(s@.subrange(0, k + 1).drop_last() =~= s@.subrange(0, k as int));
        if s[k] == c {
            done.push(cur);
            cur = Vec::new();
        } else {
            cur.push(s[k]);
        }
        k = k + 1;
    }
    assert(s@.subrange(0, s@.len() as int) == s@);
    done.push(cur);
    done
}

/// Breadcrumb text of a folder stack (profile label first), if it holds
/// anything beyond the profile label: items at the top level have none.
pub open spec fn folder_of(path: Seq<Seq<char>>) -> Option<Seq<char>> {
    if path.len() <= 1 {
        None
    } else {
        Some(join_seq(path, crumb_sep()))
    }
}

/// The keywords a bookmark is found by, before clean-up: title, URL, the
/// breadcrumb and each of its pieces trimmed, and the profile label.
pub open spec fn raw_bookmark_keywords(
    title: Seq<char>,
    url: Seq<char>,
    folder: Option<Seq<char>>,
    label: Seq<char>,
) -> Seq<Seq<char>> {
    let head = seq![title, url];
    let middle = match folder {
        Some(f) => seq![f] + split_seq(f, '/').map_values(|p: Seq<char>| trim_seq(p)),
        None => Seq::empty(),
    };
    head + middle + seq![label]
}

/// Identity of a bookmark: `label:guid`, else `label:id`, else `label:` and
/// the hex SHA-1 of label and URL.
pub open spec fn bookmark_id(
    label: Seq<char>,
    guid: Option<Seq<char>>,
    id: Option<Seq<char>>,
    url: Seq<char>,
) -> Seq<char> {
    match guid {
        Some(g) => label + seq![':'] + g,
        None => match id {
            Some(i) => label + seq![':'] + i,
            None => label + seq![':'] + hex_of(sha1_of(utf8_of(label + url))),
        },
    }
}

/// The identity of a bookmark node in a profile.
pub fn derive_bookmark_id(profile_label: &str, node: &BookmarkNode, url: &str) -> (r: String)
    ensures
        r@ == bookmark_id(profile_label@, opt_view(node.guid), opt_view(node.id), url@),
        node.guid is None && node.id is None ==> r@.len() == profile_label@.len() + 41,
{
    let mut out = to_chars(profile_label);
    out.push(':');
    match &node.guid {
        Some(g) => {
            let gc = to_chars(g.as_str());
            append_chars(&mut out, gc.as_slice());
        },
        None => match &node.id {
            Some(i) => {
                let ic = to_chars(i.as_str());
                append_chars(&mut out, ic.as_slice());
            },
            None => {
                let mut joined = to_chars(profile_label);
                let uc = to_chars(url);
                append_chars(&mut joined, uc.as_slice());
                let text = from_chars(joined.as_slice());
                let bytes = utf8_bytes(text.as_str());
                let digest = sha1_digest(bytes.as_slice());
                let hex = encode(digest.as_slice());
                let hc = to_chars(hex.as_str());
                append_chars(&mut out, hc.as_slice());
            },
        },
    }
    assert(out@ =~= bookmark_id(profile_label@, opt_view(node.guid), opt_view(node.id), url@));
    from_chars(out.as_slice())
}

/// The entry a `"url"` node gives under folder stack `path`, if it is kept:
/// title and URL non-blank once trimmed, and a web URL.
pub open spec fn leaf_kept(node: BookmarkNode) -> bool {
    &&& node.name is Some
    &&& node.url is Some
    &&& !blank(node.name.unwrap()@)
    &&& !blank(node.url.unwrap()@)
    &&& web_url(trim_seq(node.url.unwrap()@))
}

/// What an entry made from `node` under `path` holds.
pub open spec fn leaf_entry_matches(
    e: BookmarkEntry,
    node: BookmarkNode,
    label: Seq<char>,
    path: Seq<Seq<char>>,
) -> bool {
    let title = trim_seq(node.name.unwrap()@);
    let url = trim_seq(node.url.unwrap()@);
    &&& e.title@ == title
    &&& e.url@ == url
    &&& opt_view(e.folder_path) == folder_of(path)
    &&& e.id@ == bookmark_id(label, opt_view(node.guid), opt_view(node.id), url)
    &&& clean_keywords(views(e.keywords@))
    &&& same_keywords(
        views(e.keywords@),
        raw_bookmark_keywords(title, url, folder_of(path), label),
    )
}

/// What every catalog bookmark satisfies.
pub open spec fn well_formed_bookmark(e: BookmarkEntry) -> bool {
    &&& web_url(e.url@)
    &&& !blank(e.title@)
    &&& clean_keywords(views(e.keywords@))
}

/// The entry for a `"url"` node, or `None` when it is not kept.
pub fn bookmark_from_leaf(node: &BookmarkNode, profile_label: &str, path_stack: &Vec<String>) -> (r:
    Option<BookmarkEntry>)
    ensures
        r is Some <==> leaf_kept(*node),
        r is Some ==> leaf_entry_matches(r.unwrap(), *node, profile_label@, views(path_stack@)),
        r is Some ==> r.unwrap()@ == leaf_view(*node, profile_label@, views(path_stack@)),
        r is Some ==> well_formed_bookmark(r.unwrap()),
{
    let (name, raw_url) = match (&node.name, &node.url) {
        (Some(n), Some(u)) => (n, u),
        _ => return None,
    };
    let title = trim_chars(to_chars(name.as_str()).as_slice());
    let url = trim_chars(to_chars(raw_url.as_str()).as_slice());
    proof {
        crate::text::lemma_trim_blank(name@);
        crate::text::lemma_trim_blank(raw_url@);
    }
    if is_blank(title.as_slice()) || is_blank(url.as_slice()) {
        return None;
    }
    if !is_supported_url(url.as_slice()) {
        return None;
    }
    let folder_path = if path_stack.len() <= 1 {
        None
    } else {
        Some(from_chars(join_path(path_stack).as_slice()))
    };
    let title_s = from_chars(title.as_slice());
    let url_s = from_chars(url.as_slice());
    let mut raw: Vec<String> = Vec::new();
    raw.push(from_chars(title.as_slice()));
    raw.push(from_chars(url.as_slice()));
    match &folder_path {
        Some(f) => {
            raw.push(f.clone());
            let fc = to_chars(f.as_str());
            let pieces = split_chars(fc.as_slice(), '/');
            let mut k: usize = 0;
            while k < pieces.len()
                invariant
                    k <= pieces@.len(),
                    raw@.len() == 3 + k,
                    views(raw@).subrange(0, 3) == seq![title@, url@, f@],
                    forall|i: int|
                        0 <= i < k ==> (#[trigger] raw@[3 + i])@ == trim_seq(pieces@[i]@),
                decreases pieces@.len() - k,
            {
                let t = trim_chars(pieces[k].as_slice());
                raw.push(from_chars(t.as_slice()));
                k = k + 1;
                assert(views(raw@).subrange(0, 3) =~= seq![title@, url@, f@]) by {
                    assert(views(raw@).subrange(0, 3)[0] == raw@[0]@);
                }
            }
        },
        None => {},
    }
    raw.push(String::from_str(profile_label));
    let keywords = normalize_keywords(&raw);
    proof {
        let fo = folder_of(views(path_stack@));
        assert(opt_view(folder_path) == fo);
        let expect = raw_bookmark_keywords(title@, url@, fo, profile_label@);
        match &folder_path {
            Some(f) => {
                let sp = split_seq(f@, '/').map_values(|p: Seq<char>| trim_seq(p));
                assert(views(raw@) =~= expect) by {
                    assert(expect =~= seq![title@, url@] + (seq![f@] + sp) + seq![profile_label@]);
                    assert forall|i: int| 0 <= i < views(raw@).len() implies views(raw@)[i]
                        == expect[i] by {
                        if i < 3 {
                            assert(views(raw@).subrange(0, 3)[i] == views(raw@)[i]);
                        } else if i < views(raw@).len() - 1 {
                            assert(raw@[3 + (i - 3)]@ == trim_seq(split_seq(f@, '/')[i - 3]));
                        }
                    }
                }
            },
            None => {
                assert(views(raw@) =~= expect);
            },
        }
    }
    Some(
        BookmarkEntry {
            id: derive_bookmark_id(profile_label, node, url_s.as_str()),
            title: title_s,
            url: url_s,
            folder_path,
            keywords,
        },
    )
}

} // verus!

verus! {

pub open spec fn node_is(node: BookmarkNode, word: Seq<char>) -> bool {
    node.node_type is Some && node.node_type.unwrap()@ == word
}

pub open spec fn folder_word() -> Seq<char> {
    seq!['f', 'o', 'l', 'd', 'e', 'r']
}

pub open spec fn url_word() -> Seq<char> {
    seq!['u', 'r', 'l']
}

/// The breadcrumb inside a folder: its trimmed name added, unless blank.
pub open spec fn path_inside(node: BookmarkNode, path: Seq<Seq<char>>) -> Seq<Seq<char>> {
    match node.name {
        Some(n) => if blank(n@) {
            path
        } else {
            path.push(trim_seq(n@))
        },
        None => path,
    }
}

/// The entry a kept `"url"` node gives under breadcrumb `path`.
pub open spec fn leaf_view(node: BookmarkNode, label: Seq<char>, path: Seq<Seq<char>>) -> BookmarkView {
    let title = trim_seq(node.name.unwrap()@);
    let url = trim_seq(node.url.unwrap()@);
    BookmarkView {
        id: bookmark_id(label, opt_view(node.guid), opt_view(node.id), url),
        title,
        url,
        folder_path: folder_of(path),
        keywords: sorted_keywords(raw_bookmark_keywords(title, url, folder_of(path), label)),
    }
}

/// The entries of a node's subtree, depth first, under breadcrumb `path`.
pub open spec fn walk(node: BookmarkNode, label: Seq<char>, path: Seq<Seq<char>>) -> Seq<BookmarkView>
    decreases node,
{
    if node_is(node, folder_word()) {
        match node.children {
            Some(ch) => walk_list(ch@, label, path_inside(node, path)),
            None => Seq::empty(),
        }
    } else if node_is(node, url_word()) && leaf_kept(node) {
        seq![leaf_view(node, label, path)]
    } else {
        Seq::empty()
    }
}

/// The entries of several sibling subtrees, in order.
pub open spec fn walk_list(
    nodes: Seq<BookmarkNode>,
    label: Seq<char>,
    path: Seq<Seq<char>>,
) -> Seq<BookmarkView>
    decreases nodes,
{
    if nodes.len() == 0 {
        Seq::empty()
    } else {
        walk_list(nodes.subrange(0, nodes.len() - 1), label, path) + walk(
            nodes[nodes.len() - 1],
            label,
            path,
        )
    }
}

/// `new` keeps the entries of `old` in place, and everything after them is a
/// well-formed bookmark.
pub open spec fn extends_with_bookmarks(old: Seq<BookmarkEntry>, new: Seq<BookmarkEntry>) -> bool {
    &&& old.len() <= new.len()
    &&& forall|i: int| 0 <= i < old.len() ==> (#[trigger] new[i])@ == old[i]@
    &&& forall|i: int| old.len() <= i < new.len() ==> well_formed_bookmark(#[trigger] new[i])
}

/// Whether the node's type is the given word.
fn type_is(node: &BookmarkNode, word: &[char]) -> (r: bool)
    ensures
        r == (node.node_type is Some && node.node_type.unwrap()@ == word@),
{
    match &node.node_type {
        Some(t) => {
            let tc = to_chars(t.as_str());
            crate::keywords::chars_eq(tc.as_slice(), word)
        },
        None => false,
    }
}

/// Walks `node` depth-first: a folder adds its trimmed name (when not blank)
/// to the breadcrumb while its children are walked, a `"url"` node adds its
/// entry to `acc` when it is kept. The breadcrumb is as before afterwards.
pub fn collect_node(
    node: &BookmarkNode,
    profile_label: &str,
    path_stack: &mut Vec<String>,
    acc: &mut Vec<BookmarkEntry>,
)
    ensures
        views(final(path_stack)@) == views(old(path_stack)@),
        extends_with_bookmarks(old(acc)@, final(acc)@),
        bookmark_views(final(acc)@) == bookmark_views(old(acc)@) + walk(
            *node,
            profile_label@,
            views(old(path_stack)@),
        ),
    decreases node,
{
    let folder = ['f', 'o', 'l', 'd', 'e', 'r'];
    let url = ['u', 'r', 'l'];
    assert(folder@ == folder_word());
    assert(url@ == url_word());
    if type_is(node, &folder) {
        let ghost stack0 = views(path_stack@);
        let ghost acc0 = acc@;
        let mut pushed = false;
        match &node.name {
            Some(name) => {
                let t = trim_chars(to_chars(name.as_str()).as_slice());
                if !is_blank(t.as_slice()) {
                    path_stack.push(from_chars(t.as_slice()));
                    pushed = true;
                }
            },
            None => {},
        }
        let ghost stack1 = views(path_stack@);
        proof {
            if node.name is Some {
                crate::text::lemma_trim_blank(node.name.unwrap()@);
            }
            assert(stack1 == path_inside(*node, stack0));
            if pushed {
                assert(stack1.drop_last() =~= stack0);
            } else {
                assert(stack1 == stack0);
            }
        }
        match &node.children {
            Some(children) => {
                let mut i: usize = 0;
                while i < children.len()
                    invariant
                        i <= children@.len(),
                        views(path_stack@) == stack1,
                        extends_with_bookmarks(acc0, acc@),
                        node.children == Some(*children),
                        bookmark_views(acc@) == bookmark_views(acc0) + walk_list(
                            children@.subrange(0, i as int),
                            profile_label@,
                            stack1,
                        ),
                    decreases children@.len() - i,
                {
                    proof {
                        broadcast use vstd::std_specs::vec::axiom_vec_index_decreases;
                        assert(decreases_to!(children => children[i as int]));
                        assert(decreases_to!(node.children => node.children->Some_0));
                        assert(decreases_to!(*node => node.children));
                        assert(decreases_to!(*node => children[i as int]));
                    }
                    collect_node(&children[i], profile_label, path_stack, acc);
                    proof {
                        let t = children@.subrange(0, i + 1);
                        assert(t.subrange(0, t.len() - 1) =~= children@.subrange(0, i as int));
                        assert(t[t.len() - 1] == children@[i as int]);
                        assert(bookmark_views(acc@) =~= bookmark_views(acc0) + walk_list(
                            t,
                            profile_label@,
                            stack1,
                        ));
                    }
                    i = i + 1;
                }
                assert(children@.subrange(0, children@.len() as int) =~= children@);
            },
            None => {
                assert(bookmark_views(acc@) =~= bookmark_views(acc0) + Seq::<BookmarkView>::empty());
            },
        }
        if pushed {
            path_stack.pop();
            proof {
                assert(views(path_stack@) =~= stack1.drop_last());
            }
        }
    } else if type_is(node, &url) {
        let ghost before = bookmark_views(acc@);
        match bookmark_from_leaf(node, profile_label, path_stack) {
            Some(e) => {
                acc.push(e);
                assert(bookmark_views(acc@) =~= before + seq![e@]);
            },
            None => {
                assert(bookmark_views(acc@) =~= before + Seq::<BookmarkView>::empty());
            },
        }
    } else {
        assert(bookmark_views(acc@) =~= bookmark_views(acc@) + Seq::<BookmarkView>::empty());
    }
}

/// The breadcrumb a named root starts: the profile label, then the root's
/// own label when it has one.
pub open spec fn root_path(key: Seq<char>, label: Seq<char>) -> Seq<Seq<char>> {
    match root_label(key) {
        Some(l) => seq![label, l],
        None => seq![label],
    }
}

/// The entries of one named root: its children's, or its own when it has no
/// children list.
pub open spec fn root_entries(key: Seq<char>, node: BookmarkNode, label: Seq<char>) -> Seq<
    BookmarkView,
> {
    match node.children {
        Some(ch) => walk_list(ch@, label, root_path(key, label)),
        None => walk(node, label, root_path(key, label)),
    }
}

/// The entries of all named roots, in order.
pub open spec fn roots_walk(roots: Seq<(String, BookmarkNode)>, label: Seq<char>) -> Seq<
    BookmarkView,
>
    decreases roots.len(),
{
    if roots.len() == 0 {
        Seq::empty()
    } else {
        roots_walk(roots.drop_last(), label) + root_entries(
            roots.last().0@,
            roots.last().1,
            label,
        )
    }
}

/// Adds the kept bookmarks of one profile's tree to `acc`: each named root
/// starts a breadcrumb of the profile label and the root's own label.
pub fn collect_entries_from_file(
    roots: &Vec<(String, BookmarkNode)>,
    profile_label: &str,
    acc: &mut Vec<BookmarkEntry>,
)
    ensures
        extends_with_bookmarks(old(acc)@, final(acc)@),
        bookmark_views(final(acc)@) == bookmark_views(old(acc)@) + roots_walk(
            roots@,
            profile_label@,
        ),
{
    let ghost acc0 = acc@;
    let mut r: usize = 0;
    while r < roots.len()
        invariant
            r <= roots@.len(),
            extends_with_bookmarks(acc0, acc@),
            bookmark_views(acc@) == bookmark_views(acc0) + roots_walk(
                roots@.take(r as int),
                profile_label@,
            ),
        decreases roots@.len() - r,
    {
        let ghost accr = bookmark_views(acc@);
        let key = &roots[r].0;
        let node = &roots[r].1;
        let mut path_stack: Vec<String> = Vec::new();
        path_stack.push(String::from_str(profile_label));
        match root_display_label(key.as_str()) {
            Some(label) => path_stack.push(label),
            None => {},
        }
        let ghost rp = views(path_stack@);
        assert(rp =~= root_path(key@, profile_label@));
        match &node.children {
            Some(children) => {
                let mut i: usize = 0;
                while i < children.len()
                    invariant
                        i <= children@.len(),
                        extends_with_bookmarks(acc0, acc@),
                        views(path_stack@) == rp,
                        bookmark_views(acc@) == accr + walk_list(
                            children@.subrange(0, i as int),
                            profile_label@,
                            rp,
                        ),
                    decreases children@.len() - i,
                {
                    collect_node(&children[i], profile_label, &mut path_stack, acc);
                    proof {
                        let t = children@.subrange(0, i + 1);
                        assert(t.subrange(0, t.len() - 1) =~= children@.subrange(0, i as int));
                        assert(t[t.len() - 1] == children@[i as int]);
                        assert(bookmark_views(acc@) =~= accr + walk_list(t, profile_label@, rp));
                    }
                    i = i + 1;
                }
                assert(children@.subrange(0, children@.len() as int) =~= children@);
            },
            None => {
                collect_node(node, profile_label, &mut path_stack, acc);
            },
        }
        proof {
            assert(roots@.take(r + 1).drop_last() =~= roots@.take(r as int));
            assert(roots@.take(r + 1).last() == roots@[r as int]);
            assert(bookmark_views(acc@) =~= bookmark_views(acc0) + roots_walk(
                roots@.take(r + 1),
                profile_label@,
            ));
        }
        r = r + 1;
    }
    assert(roots@.take(roots@.len() as int) =~= roots@);
}

} // verus!
