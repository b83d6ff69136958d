//! Completion summaries: finding the images that a summary references, and
//! rewriting their links once the images have been stored.
//!
//! An image reference is `![name](path)` on one line: the name runs to the
//! first `]`, which must be followed by `(`, and the path runs to the first
//! `)`. A path that starts with `http` is hosted elsewhere and never staged.

use crate::text::{chars_of, decimal, push_decimal};
use vstd::prelude::*;
use vstd::string::*;

verus! {

/// An image that a summary references by name, with the path it gave.
#[derive(Debug)]
pub struct ImageRef {
    pub name: String,
    pub path: String,
}

/// An uploaded image for a summary.
#[derive(Debug)]
pub struct Asset {
    pub name: String,
    pub bytes: Vec<u8>,
    pub extension: String,
}

/// First position at or after `from` that holds `c` or ends the line.
pub open spec fn stop_at(s: Seq<char>, from: int, c: char) -> int
    decreases s.len() - from,
{
    if from >= s.len() || s[from] == c || s[from] == '\n' {
        from
    } else {
        stop_at(s, from + 1, c)
    }
}

/// Where the image reference that starts at `i` has its `]` and its `)`.
pub open spec fn image_at(s: Seq<char>, i: int) -> Option<(int, int)> {
    if 0 <= i && i + 1 < s.len() && s[i] == '!' && s[i + 1] == '[' {
        let j = stop_at(s, i + 2, ']');
        let k = stop_at(s, j + 2, ')');
        if i + 2 <= j && j + 1 < s.len() && s[j] == ']' && s[j + 1] == '(' && j + 2 <= k < s.len()
            && s[k] == ')' {
            Some((j, k))
        } else {
            None
        }
    } else {
        None
    }
}

/// The (name, path) of each image reference from position `i` on, in order.
pub open spec fn image_refs(s: Seq<char>, i: int) -> Seq<(Seq<char>, Seq<char>)>
    decreases s.len() - i,
{
    if i < 0 || i >= s.len() {
        seq![]
    } else {
        match image_at(s, i) {
            Some((j, k)) => seq![(s.subrange(i + 2, j), s.subrange(j + 2, k))] + image_refs(
                s,
                k + 1,
            ),
            None => image_refs(s, i + 1),
        }
    }
}

/// A path hosted elsewhere.
pub open spec fn is_external(path: Seq<char>) -> bool {
    path.len() >= 4 && path[0] == 'h' && path[1] == 't' && path[2] == 't' && path[3] == 'p'
}

/// Local images by name, each with the path of its last reference.
pub open spec fn pending_map(refs: Seq<(Seq<char>, Seq<char>)>) -> Map<Seq<char>, Seq<char>>
    decreases refs.len(),
{
    if refs.len() == 0 {
        Map::empty()
    } else {
        let m = pending_map(refs.drop_last());
        let r = refs.last();
        if is_external(r.1) {
            m
        } else {
            m.insert(r.0, r.1)
        }
    }
}

/// The images that `text` is waiting for.
pub open spec fn pending_of(text: Seq<char>) -> Map<Seq<char>, Seq<char>> {
    pending_map(image_refs(text, 0))
}

/// `v` holds each entry of `m` once, and nothing else.
pub open spec fn lists_exactly(v: Seq<ImageRef>, m: Map<Seq<char>, Seq<char>>) -> bool {
    &&& forall|a: int, b: int| 0 <= a < b < v.len() ==> v[a].name@ != v[b].name@
    &&& forall|a: int| 0 <= a < v.len() ==> #[trigger] m.contains_key(v[a].name@) && m[v[a].name@]
        == v[a].path@
    &&& forall|key: Seq<char>| #[trigger] m.contains_key(key) ==> exists|a: int|
        0 <= a < v.len() && v[a].name@ == key
}

fn scan_to(cs: &Vec<char>, from: usize, c: char) -> (r: usize)
    requires
        from <= cs.len(),
    ensures
        r == stop_at(cs@, from as int, c),
        from <= r <= cs.len(),
{
    let mut k = from;
    while k < cs.len() && cs[k] != c && cs[k] != '\n'
        invariant
            from <= k <= cs.len(),
            stop_at(cs@, from as int, c) == stop_at(cs@, k as int, c),
        decreases cs.len() - k,
    {
        k = k + 1;
    }
    k
}

fn find_image(cs: &Vec<char>, i: usize) -> (r: Option<(usize, usize)>)
    requires
        i < cs.len(),
    ensures
        match r {
            Some((j, k)) => image_at(cs@, i as int) == Some((j as int, k as int)),
            None => image_at(cs@, i as int) is None,
        },
{
    if i + 1 < cs.len() && cs[i] == '!' && cs[i + 1] == '[' {
        let j = scan_to(cs, i + 2, ']');
        if j < cs.len() - 1 && cs[j] == ']' && cs[j + 1] == '(' {
            let k = scan_to(cs, j + 2, ')');
            if k < cs.len() && cs[k] == ')' {
                return Some((j, k));
            }
        }
    }
    None
}

/// The local images that `summary` references, each name once with the
/// path of its last reference.
pub fn get_images(summary: &str) -> (r: Vec<ImageRef>)
    ensures
        lists_exactly(r@, pending_of(summary@)),
{
    let cs = chars_of(summary);
    let ghost s = summary@;
    let ghost mut done: Seq<(Seq<char>, Seq<char>)> = seq![];
    let mut out: Vec<ImageRef> = Vec::new();
    let mut i: usize = 0;
    while i < cs.len()
        invariant
            cs@ == s,
            s == summary@,
            i <= cs.len(),
            image_refs(s, 0) == done + image_refs(s, i as int),
            lists_exactly(out@, pending_map(done)),
        decreases cs.len() - i,
    {
        match find_image(&cs, i) {
            Some((j, k)) => {
                let name = String::from_str(summary.substring_char(i + 2, j));
                let path = String::from_str(summary.substring_char(j + 2, k));
                let ghost entry = (s.subrange(i + 2, j as int), s.subrange(j + 2, k as int));
                assert(image_refs(s, i as int) == seq![entry] + image_refs(s, k + 1));
                assert(done + image_refs(s, i as int) =~= done.push(entry) + image_refs(
                    s,
                    k + 1,
                ));
                assert(done.push(entry).drop_last() =~= done);
                proof {
                    done = done.push(entry);
                }
                if !is_external_path(&path) {
                    add_or_replace(&mut out, name, path, Ghost(pending_map(done.drop_last())));
                }
                i = k + 1;
            },
            None => {
                i = i + 1;
            },
        }
    }
    assert(done + image_refs(s, i as int) =~= done);
    out
}

fn is_external_path(path: &String) -> (r: bool)
    ensures
        r == is_external(path@),
{
    let p = path.as_str();
    if p.unicode_len() < 4 {
        return false;
    }
    p.get_char(0) == 'h' && p.get_char(1) == 't' && p.get_char(2) == 't' && p.get_char(3) == 'p'
}

fn add_or_replace(
    out: &mut Vec<ImageRef>,
    name: String,
    path: String,
    Ghost(m): Ghost<Map<Seq<char>, Seq<char>>>,
)
    requires
        lists_exactly(old(out)@, m),
    ensures
        lists_exactly(final(out)@, m.insert(name@, path@)),
{
    let ghost nv = name@;
    let ghost m2 = m.insert(name@, path@);
    let mut x: usize = 0;
    while x < out.len()
        invariant
            x <= out.len(),
            lists_exactly(out@, m),
            nv == name@,
            m2 == m.insert(name@, path@),
            forall|a: int| 0 <= a < x ==> out@[a].name@ != name@,
        decreases out.len() - x,
    {
        if out[x].name == name {
            let ghost before = out@;
            out.set(x, ImageRef { name, path });
            assert forall|key: Seq<char>| #[trigger] m2.contains_key(key) implies exists|a: int|
                0 <= a < out@.len() && out@[a].name@ == key by {
                if key != nv {
                    assert(m.contains_key(key));
                    let a = choose|a: int| 0 <= a < before.len() && before[a].name@ == key;
                    assert(out@[a].name@ == key);
                } else {
                    assert(out@[x as int].name@ == key);
                }
            }
            return;
        }
        x = x + 1;
    }
    let ghost before = out@;
    out.push(ImageRef { name, path });
    assert forall|key: Seq<char>| #[trigger] m2.contains_key(key) implies exists|a: int|
        0 <= a < out@.len() && out@[a].name@ == key by {
        if key != nv {
            assert(m.contains_key(key));
            let a = choose|a: int| 0 <= a < before.len() && before[a].name@ == key;
            assert(out@[a].name@ == key);
        } else {
            assert(out@[before.len() as int].name@ == key);
        }
    }
}

/// Directory part of the link to a stored image.
pub open spec fn image_dir() -> Seq<char> {
    seq!['i', 'm', 'a', 'g', 'e', 's', '/']
}

/// Key under which an image of task `id` is stored: `{id}_{name}.{extension}`.
pub open spec fn asset_key_of(id: u64, name: Seq<char>, extension: Seq<char>) -> Seq<char> {
    decimal(id as nat) + seq!['_'] + name + seq!['.'] + extension
}

/// Position of the first asset from `from` on that carries `name`.
pub open spec fn first_named(assets: Seq<Asset>, name: Seq<char>, from: int) -> Option<int>
    decreases assets.len() - from,
{
    if from < 0 || from >= assets.len() {
        None
    } else if assets[from].name@ == name {
        Some(from)
    } else {
        first_named(assets, name, from + 1)
    }
}

proof fn lemma_first_named(assets: Seq<Asset>, name: Seq<char>, from: int)
    requires
        first_named(assets, name, from) is Some,
    ensures
        from <= first_named(assets, name, from)->0 < assets.len(),
        assets[first_named(assets, name, from)->0].name@ == name,
    decreases assets.len() - from,
{
    if from >= 0 && from < assets.len() && assets[from].name@ != name {
        lemma_first_named(assets, name, from + 1);
    }
}

/// The link that replaces `path` for image `name`: the stored copy of the
/// first asset of that name, unless the path is hosted elsewhere or no asset
/// carries the name.
pub open spec fn new_link(id: u64, assets: Seq<Asset>, name: Seq<char>, path: Seq<char>) -> Seq<
    char,
> {
    if is_external(path) {
        path
    } else {
        match first_named(assets, name, 0) {
            Some(x) => image_dir() + asset_key_of(id, name, assets[x].extension@),
            None => path,
        }
    }
}

/// `s` from position `i` on, with every image link replaced by its new link.
pub open spec fn rewritten(s: Seq<char>, i: int, id: u64, assets: Seq<Asset>) -> Seq<char>
    decreases s.len() - i,
{
    if i < 0 || i >= s.len() {
        seq![]
    } else {
        match image_at(s, i) {
            Some((j, k)) => s.subrange(i, j + 2) + new_link(
                id,
                assets,
                s.subrange(i + 2, j),
                s.subrange(j + 2, k),
            ) + rewritten(s, k, id, assets),
            None => seq![s[i]] + rewritten(s, i + 1, id, assets),
        }
    }
}

/// The key under which `asset` of task `id` is stored.
pub fn asset_key(id: u64, asset: &Asset) -> (r: String)
    ensures
        r@ == asset_key_of(id, asset.name@, asset.extension@),
{
    let mut r = String::new();
    push_decimal(&mut r, id);
    proof {
        reveal_strlit("_");
        reveal_strlit(".");
    }
    r.append("_");
    r.append(asset.name.as_str());
    r.append(".");
    r.append(asset.extension.as_str());
    assert(r@ =~= asset_key_of(id, asset.name@, asset.extension@));
    r
}

/// Where `asset` of task `id` is stored, which is also its new link:
/// `images/{id}_{name}.{extension}`.
pub fn asset_path(id: u64, asset: &Asset) -> (r: String)
    ensures
        r@ == image_dir() + asset_key_of(id, asset.name@, asset.extension@),
{
    proof {
        reveal_strlit("images/");
    }
    let mut r = String::from_str("images/");
    let key = asset_key(id, asset);
    r.append(key.as_str());
    r
}

fn first_asset(assets: &Vec<Asset>, name: &str) -> (r: Option<usize>)
    ensures
        match r {
            Some(x) => first_named(assets@, name@, 0) == Some(x as int),
            None => first_named(assets@, name@, 0) is None,
        },
{
    let mut x: usize = 0;
    while x < assets.len()
        invariant
            x <= assets.len(),
            first_named(assets@, name@, 0) == first_named(assets@, name@, x as int),
        decreases assets.len() - x,
    {
        if str_eq(assets[x].name.as_str(), name) {
            return Some(x);
        }
        x = x + 1;
    }
    None
}

fn str_eq(a: &str, b: &str) -> (r: bool)
    ensures
        r == (a@ == b@),
{
    let n = a.unicode_len();
    if n != b.unicode_len() {
        return false;
    }
    let mut i: usize = 0;
    while i < n
        invariant
            n == a@.len() == b@.len(),
            i <= n,
            a@.subrange(0, i as int) == b@.subrange(0, i as int),
        decreases n - i,
    {
        if a.get_char(i) != b.get_char(i) {
            return false;
        }
        assert(a@.subrange(0, i + 1) =~= a@.subrange(0, i as int).push(a@[i as int]));
        assert(b@.subrange(0, i + 1) =~= b@.subrange(0, i as int).push(b@[i as int]));
        i = i + 1;
    }
    assert(a@ =~= a@.subrange(0, n as int));
    assert(b@ =~= b@.subrange(0, n as int));
    true
}

/// `staged` with the link of each image reference replaced by the stored
/// copy of the first asset that carries its name. Lines without an image,
/// links hosted elsewhere and images that no asset names stay as they are.
pub fn rewrite_summary(staged: &str, id: u64, assets: &Vec<Asset>) -> (r: String)
    ensures
        r@ == rewritten(staged@, 0, id, assets@),
{
    let cs = chars_of(staged);
    let ghost s = staged@;
    let mut out = String::new();
    let mut copied: usize = 0;
    let mut i: usize = 0;
    while i < cs.len()
        invariant
            cs@ == s,
            s == staged@,
            copied <= i <= cs.len(),
            rewritten(s, 0, id, assets@) == out@ + s.subrange(copied as int, i as int) + rewritten(
                s,
                i as int,
                id,
                assets@,
            ),
        decreases cs.len() - i,
    {
        match find_image(&cs, i) {
            Some((j, k)) => {
                let name = staged.substring_char(i + 2, j);
                let path = String::from_str(staged.substring_char(j + 2, k));
                let ghost link = new_link(id, assets@, name@, path@);
                assert(rewritten(s, i as int, id, assets@) == s.subrange(i as int, j + 2) + link
                    + rewritten(s, k as int, id, assets@));
                let target = if is_external_path(&path) {
                    None
                } else {
                    first_asset(assets, name)
                };
                match target {
                    Some(x) => {
                        proof {
                            lemma_first_named(assets@, name@, 0);
                        }
                        out.append(staged.substring_char(copied, j + 2));
                        let link = asset_path(id, &assets[x]);
                        out.append(link.as_str());
                        assert(out@ + s.subrange(k as int, k as int) + rewritten(
                            s,
                            k as int,
                            id,
                            assets@,
                        ) =~= out@ + rewritten(s, k as int, id, assets@));
                        assert(s.subrange(copied as int, i as int) + s.subrange(
                            i as int,
                            j + 2,
                        ) =~= s.subrange(copied as int, j + 2));
                        copied = k;
                    },
                    None => {
                        assert(s.subrange(copied as int, i as int) + s.subrange(i as int, j + 2)
                            + s.subrange(j + 2, k as int) =~= s.subrange(
                            copied as int,
                            k as int,
                        ));
                    },
                }
                i = k;
            },
            None => {
                assert(s.subrange(copied as int, i as int) + seq![s[i as int]] =~= s.subrange(
                    copied as int,
                    i + 1,
                ));
                i = i + 1;
            },
        }
    }
    out.append(staged.substring_char(copied, cs.len()));
    out
}

/// HTML that the markdown renderer makes of a text.
pub uninterp spec fn html_of(text: Seq<char>) -> Seq<char>;

/// Relies on markdown::to_html: CommonMark with default options, which never
/// fails on plain markdown; the HTML depends on the text alone.
#[verifier::external_body]
pub(crate) fn render_html(text: &str) -> (r: String)
    ensures
        r@ == html_of(text@),
{
    markdown::to_html(text)
}

/// Key of the rendered summary of task `id`: `summaries/{id}.html`.
pub open spec fn summary_key_of(id: u64) -> Seq<char> {
    seq!['s', 'u', 'm', 'm', 'a', 'r', 'i', 'e', 's', '/'] + decimal(id as nat) + seq![
        '.',
        'h',
        't',
        'm',
        'l',
    ]
}

/// The key under which the rendered summary of task `id` is stored.
pub fn summary_key(id: u64) -> (r: String)
    ensures
        r@ == summary_key_of(id),
{
    proof {
        reveal_strlit("summaries/");
        reveal_strlit(".html");
    }
    let mut r = String::from_str("summaries/");
    push_decimal(&mut r, id);
    r.append(".html");
    assert(r@ =~= summary_key_of(id));
    r
}

} // verus!
