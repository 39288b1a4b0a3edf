//! Repository layout, with paths held as `/`-separated text.
//!
//! A path's components follow the Unix rules of `std::path::Path`: empty
//! segments (repeated or trailing separators) vanish, `.` segments vanish
//! except a leading one in a relative path, and a root `/` is not a
//! component of its own.

use vstd::prelude::*;
use crate::error::ToolkitError;
use crate::text::{push_char, same_text};

verus! {

pub open spec fn dot() -> Seq<char> {
    seq!['.']
}

pub open spec fn dot_dot() -> Seq<char> {
    seq!['.', '.']
}

/// Adds the finished segment `cur` to the components found so far.
pub open spec fn flush(done: Seq<Seq<char>>, cur: Seq<char>, relative: bool) -> Seq<Seq<char>> {
    if cur.len() == 0 {
        done
    } else if cur == dot() && !(relative && done.len() == 0) {
        done
    } else {
        done.push(cur)
    }
}

/// Components completed so far, and the segment being read, after
/// reading `s` from the left.
pub open spec fn scan(s: Seq<char>, relative: bool) -> (Seq<Seq<char>>, Seq<char>)
    decreases s.len(),
{
    if s.len() == 0 {
        (seq![], seq![])
    } else {
        let (d, c) = scan(s.drop_last(), relative);
        if s.last() == '/' {
            (flush(d, c, relative), seq![])
        } else {
            (d, c.push(s.last()))
        }
    }
}

pub open spec fn is_relative(p: Seq<char>) -> bool {
    p.len() == 0 || p[0] != '/'
}

/// The components of path `p`.
pub open spec fn path_components(p: Seq<char>) -> Seq<Seq<char>> {
    let (d, c) = scan(p, is_relative(p));
    flush(d, c, is_relative(p))
}

/// The final component of a path with components `c`, unless there is
/// none or it is `.` or `..` (std's `Path::file_name`).
pub open spec fn file_name_of(c: Seq<Seq<char>>) -> Option<Seq<char>> {
    if c.len() == 0 || c.last() == dot() || c.last() == dot_dot() {
        None
    } else {
        Some(c.last())
    }
}

/// The components of `path`, in order.
pub fn components(path: &str) -> (r: Vec<String>)
    ensures
        r.deep_view() == path_components(path@),
{
    let n = path.unicode_len();
    let relative = n == 0 || path.get_char(0) != '/';
    assert(relative == is_relative(path@));
    let mut done: Vec<String> = Vec::new();
    let mut cur = String::new();
    let mut cur_len: usize = 0;
    let mut cur_is_dot = false;
    let mut i: usize = 0;
    assert(path@.take(0) =~= Seq::<char>::empty());
    while i < n
        invariant
            n == path@.len(),
            i <= n,
            relative == is_relative(path@),
            (done.deep_view(), cur@) == scan(path@.take(i as int), relative),
            cur_len == cur@.len(),
            cur_len <= i,
            cur_is_dot == (cur@ == dot()),
        decreases n - i,
    {
        let c = path.get_char(i);
        let ghost prefix = path@.take(i as int);
        assert(path@.take(i + 1).drop_last() =~= prefix);
        assert(path@.take(i + 1).last() == c);
        if c == '/' {
            if cur_len == 0 || (cur_is_dot && !(relative && done.len() == 0)) {
            } else {
                let ghost before = done.deep_view();
                done.push(cur);
                assert(done.deep_view() =~= before.push(cur@));
            }
            cur = String::new();
            cur_len = 0;
            cur_is_dot = false;
        } else {
            let ghost old_cur = cur@;
            push_char(&mut cur, c);
            assert(cur@.len() == 1 ==> cur@ =~= seq![cur@[0]]);
            if cur_len == 0 {
                assert(cur@ =~= seq![c]);
            }
            cur_is_dot = cur_len == 0 && c == '.';
            assert(cur_is_dot == (cur@ == dot())) by {
                if cur@ == dot() {
                    assert(cur@.len() == 1);
                    assert(cur@[0] == '.');
                }
            }
            cur_len = cur_len + 1;
        }
        i = i + 1;
    }
    assert(path@.take(n as int) =~= path@);
    if cur_len == 0 || (cur_is_dot && !(relative && done.len() == 0)) {
    } else {
        let ghost before = done.deep_view();
        done.push(cur);
        assert(done.deep_view() =~= before.push(cur@));
    }
    done
}

/// Whether `s` is `.` or `..`.
fn is_dot_or_dot_dot(s: &String) -> (r: bool)
    ensures
        r == (s@ == dot() || s@ == dot_dot()),
{
    let n = s.as_str().unicode_len();
    if n == 1 {
        let c = s.as_str().get_char(0);
        assert(c == '.' ==> s@ =~= dot());
        c == '.'
    } else if n == 2 {
        let c0 = s.as_str().get_char(0);
        let c1 = s.as_str().get_char(1);
        assert(c0 == '.' && c1 == '.' ==> s@ =~= dot_dot());
        c0 == '.' && c1 == '.'
    } else {
        false
    }
}

/// What `category_and_name` gives for a recipe path with text `p`: the
/// names of the recipe file's grandparent and parent directories, or the
/// message of the error that stops it.
pub open spec fn spec_category_and_name(p: Seq<char>) -> Result<(Seq<char>, Seq<char>), Seq<char>> {
    let c = path_components(p);
    if c.len() == 0 {
        Err(p + ": expected packages/<category>/<name>/recipe.toml"@)
    } else if file_name_of(c.drop_last()) is None {
        Err(p + ": cannot determine package name from path"@)
    } else if file_name_of(c.drop_last().drop_last()) is None {
        Err(p + ": cannot determine category from path"@)
    } else {
        Ok((file_name_of(c.drop_last().drop_last())->0, file_name_of(c.drop_last())->0))
    }
}

/// Recovers `(category, name)` from a `packages/<category>/<name>/recipe.toml`
/// path, so they don't have to be passed separately.
pub fn category_and_name(recipe_path: &str) -> (r: Result<(String, String), ToolkitError>)
    ensures
        match (r, spec_category_and_name(recipe_path@)) {
            (Ok((cat, name)), Ok((scat, sname))) => cat@ == scat && name@ == sname,
            (Err(ToolkitError::Recipe(m)), Err(sm)) => m@ == sm,
            _ => false,
        },
{
    let comps = components(recipe_path);
    let n = comps.len();
    proof {
        assert(comps.deep_view().len() == comps@.len());
    }
    if n == 0 {
        let mut m = recipe_path.to_owned();
        m.append(": expected packages/<category>/<name>/recipe.toml");
        return Err(ToolkitError::Recipe(m));
    }
    let ghost c = path_components(recipe_path@);
    assert(c.drop_last() =~= comps.deep_view().drop_last());
    let dir_len = n - 1;
    if dir_len == 0 || is_dot_or_dot_dot(&comps[dir_len - 1]) {
        let mut m = recipe_path.to_owned();
        m.append(": cannot determine package name from path");
        return Err(ToolkitError::Recipe(m));
    }
    let name = comps[dir_len - 1].clone();
    let cat_len = dir_len - 1;
    assert(c.drop_last().drop_last() =~= comps.deep_view().take(cat_len as int));
    if cat_len == 0 || is_dot_or_dot_dot(&comps[cat_len - 1]) {
        let mut m = recipe_path.to_owned();
        m.append(": cannot determine category from path");
        return Err(ToolkitError::Recipe(m));
    }
    let category = comps[cat_len - 1].clone();
    Ok((category, name))
}

} // verus!

verus! {

/// `part` appended to `base` as std's `PathBuf::push` does on Unix: an
/// absolute `part` replaces `base`, and a separator is added unless
/// `base` is empty or already ends in one.
pub open spec fn path_join(base: Seq<char>, part: Seq<char>) -> Seq<char> {
    if part.len() > 0 && part[0] == '/' {
        part
    } else if base.len() == 0 {
        part
    } else if base.last() == '/' {
        base + part
    } else {
        base + seq!['/'] + part
    }
}

/// The text of `base` joined with `part` (see `path_join`).
pub fn join_path(base: &str, part: &str) -> (r: String)
    ensures
        r@ == path_join(base@, part@),
{
    let bn = base.unicode_len();
    let pn = part.unicode_len();
    if pn > 0 && part.get_char(0) == '/' {
        return part.to_owned();
    }
    if bn == 0 {
        return part.to_owned();
    }
    let mut r = base.to_owned();
    if base.get_char(bn - 1) != '/' {
        push_char(&mut r, '/');
    }
    r.append(part);
    r
}

} // verus!

verus! {

/// Position of the last `c` in `s`, or -1 when there is none.
pub open spec fn last_index_of(s: Seq<char>, c: char) -> int
    decreases s.len(),
{
    if s.len() == 0 {
        -1
    } else if s.last() == c {
        s.len() - 1
    } else {
        last_index_of(s.drop_last(), c)
    }
}

proof fn lemma_last_index_of(s: Seq<char>, c: char)
    ensures
        -1 <= last_index_of(s, c) < s.len(),
        last_index_of(s, c) >= 0 ==> s[last_index_of(s, c)] == c,
        forall|k: int| last_index_of(s, c) < k < s.len() ==> s[k] != c,
    decreases s.len(),
{
    if s.len() > 0 && s.last() != c {
        lemma_last_index_of(s.drop_last(), c);
        assert forall|k: int| last_index_of(s, c) < k < s.len() implies s[k] != c by {
            if k < s.len() - 1 {
                assert(s.drop_last()[k] == s[k]);
            }
        }
    }
}

/// Position of the last `c` in `s`, or -1 when there is none.
fn find_last(s: &str, c: char) -> (r: Option<usize>)
    ensures
        match r {
            None => last_index_of(s@, c) == -1,
            Some(k) => k == last_index_of(s@, c),
        },
{
    let n = s.unicode_len();
    let mut j: usize = n;
    assert(s@.take(n as int) =~= s@);
    while j > 0 && s.get_char(j - 1) != c
        invariant
            n == s@.len(),
            j <= n,
            last_index_of(s@, c) == last_index_of(s@.take(j as int), c),
        decreases j,
    {
        assert(s@.take(j as int).drop_last() =~= s@.take(j - 1));
        j = j - 1;
    }
    assert(s@.take(n as int) =~= s@);
    if j == 0 {
        assert(s@.take(0) =~= Seq::<char>::empty());
        None
    } else {
        assert(s@.take(j as int).last() == s@[j - 1]);
        Some(j - 1)
    }
}

/// The extension of file name `name` (std's `Path::extension`): what
/// follows its last `.`, unless it has none or its only dot leads.
pub open spec fn extension_of(name: Seq<char>) -> Option<Seq<char>> {
    let d = last_index_of(name, '.');
    if d <= 0 {
        None
    } else {
        Some(name.subrange(d + 1, name.len() as int))
    }
}

/// Whether the path names a `*.json` file: the files a channel's
/// metadata directory contributes to its index.
pub fn has_json_extension(path: &str) -> (r: bool)
    ensures
        r == (file_name_of(path_components(path@)) matches Some(n) && extension_of(n) == Some(
            "json"@,
        )),
{
    let comps = components(path);
    let n = comps.len();
    proof {
        assert(comps.deep_view().len() == comps@.len());
    }
    if n == 0 || is_dot_or_dot_dot(&comps[n - 1]) {
        return false;
    }
    let name = comps[n - 1].as_str();
    assert(name@ == path_components(path@).last());
    proof {
        lemma_last_index_of(name@, '.');
    }
    match find_last(name, '.') {
        None => false,
        Some(d) => {
            if d == 0 {
                return false;
            }
            let len = name.unicode_len();
            let ext = name.substring_char(d + 1, len);
            same_text(ext, "json")
        },
    }
}

} // verus!

verus! {

/// `s` without its trailing `/` characters (`str::trim_end_matches('/')`).
pub open spec fn strip_trailing_slashes(s: Seq<char>) -> Seq<char>
    decreases s.len(),
{
    if s.len() > 0 && s.last() == '/' {
        strip_trailing_slashes(s.drop_last())
    } else {
        s
    }
}

/// The download URL written into an archive's metadata:
/// `<base_url>/packages/<filename>`, with any trailing `/` of the base
/// dropped first.
pub fn archive_url(base_url: &str, filename: &str) -> (r: String)
    ensures
        r@ == strip_trailing_slashes(base_url@) + "/packages/"@ + filename@,
{
    let mut j: usize = base_url.unicode_len();
    assert(base_url@.take(j as int) =~= base_url@);
    while j > 0 && base_url.get_char(j - 1) == '/'
        invariant
            j <= base_url@.len(),
            strip_trailing_slashes(base_url@) == strip_trailing_slashes(base_url@.take(j as int)),
        decreases j,
    {
        assert(base_url@.take(j as int).drop_last() =~= base_url@.take(j - 1));
        j = j - 1;
    }
    assert(base_url@.take(j as int) =~= base_url@.subrange(0, j as int));
    let base = base_url.substring_char(0, j);
    let mut r = base.to_owned();
    r.append("/packages/");
    r.append(filename);
    r
}

/// What follows the last `/` of `url` (all of it when there is none).
pub open spec fn url_file_name_of(url: Seq<char>) -> Seq<char> {
    url.subrange(last_index_of(url, '/') + 1, url.len() as int)
}

/// The archive file name a metadata entry's download URL ends in.
pub fn url_file_name(url: &str) -> (r: &str)
    ensures
        r@ == url_file_name_of(url@),
{
    proof {
        lemma_last_index_of(url@, '/');
    }
    let n = url.unicode_len();
    match find_last(url, '/') {
        None => {
            assert(url@.subrange(0, n as int) =~= url@);
            url
        },
        Some(d) => url.substring_char(d + 1, n),
    }
}

/// Where one channel's generated files live under the repository root.
#[derive(Debug)]
pub struct ChannelLayout {
    /// `<repo_root>/<channel>/metadata`: one JSON file per package version.
    pub metadata_dir: String,
    /// `<repo_root>/<channel>/packages`: the built archives.
    pub packages_dir: String,
    /// `<repo_root>/<channel>/signatures`: standalone signature copies.
    pub signatures_dir: String,
    /// `<repo_root>/<channel>/index/index.json`.
    pub index_path: String,
}

/// The directory of `channel` under the repository root.
pub open spec fn channel_dir(repo_root: Seq<char>, channel: Seq<char>) -> Seq<char> {
    path_join(repo_root, channel)
}

/// The layout of `channel` under `repo_root`.
pub fn channel_layout(repo_root: &str, channel: &str) -> (l: ChannelLayout)
    ensures
        l.metadata_dir@ == path_join(channel_dir(repo_root@, channel@), "metadata"@),
        l.packages_dir@ == path_join(channel_dir(repo_root@, channel@), "packages"@),
        l.signatures_dir@ == path_join(channel_dir(repo_root@, channel@), "signatures"@),
        l.index_path@ == path_join(
            path_join(channel_dir(repo_root@, channel@), "index"@),
            "index.json"@,
        ),
{
    let dir = join_path(repo_root, channel);
    let index_dir = join_path(dir.as_str(), "index");
    ChannelLayout {
        metadata_dir: join_path(dir.as_str(), "metadata"),
        packages_dir: join_path(dir.as_str(), "packages"),
        signatures_dir: join_path(dir.as_str(), "signatures"),
        index_path: join_path(index_dir.as_str(), "index.json"),
    }
}

/// `path` with `.sig` appended: where the detached signature of the file
/// at `path` is written.
pub fn signature_path(path: &str) -> (r: String)
    ensures
        r@ == path@ + ".sig"@,
{
    let mut r = path.to_owned();
    r.append(".sig");
    r
}

} // verus!

verus! {

/// The file name of an archive at `path`, or the error naming the path
/// when it has none.
pub fn archive_file_name(path: &str) -> (r: Result<String, ToolkitError>)
    ensures
        match (r, file_name_of(path_components(path@))) {
            (Ok(name), Some(n)) => name@ == n,
            (Err(ToolkitError::Recipe(m)), None) => m@ == path@ + ": not a valid archive filename"@,
            _ => false,
        },
{
    let comps = components(path);
    let n = comps.len();
    proof {
        assert(comps.deep_view().len() == comps@.len());
    }
    if n == 0 || is_dot_or_dot_dot(&comps[n - 1]) {
        let mut m = path.to_owned();
        m.append(": not a valid archive filename");
        return Err(ToolkitError::Recipe(m));
    }
    Ok(comps[n - 1].clone())
}

} // verus!

verus! {

/// A plain directory or file name: non-empty, no `/`, and neither `.`
/// nor `..`.
pub open spec fn plain_name(s: Seq<char>) -> bool {
    &&& s.len() > 0
    &&& forall|i: int| 0 <= i < s.len() ==> #[trigger] s[i] != '/'
    &&& s != dot()
    &&& s != dot_dot()
}

pub(crate) proof fn lemma_scan_segment(s: Seq<char>, t: Seq<char>, relative: bool)
    requires
        scan(s, relative).1 == Seq::<char>::empty(),
        forall|i: int| 0 <= i < t.len() ==> #[trigger] t[i] != '/',
    ensures
        scan(s + t, relative) == (scan(s, relative).0, t),
    decreases t.len(),
{
    if t.len() == 0 {
        assert(s + t =~= s);
    } else {
        assert((s + t).drop_last() =~= s + t.drop_last());
        lemma_scan_segment(s, t.drop_last(), relative);
        assert(t.drop_last().push(t.last()) =~= t);
    }
}

proof fn lemma_scan_segment_slash(s: Seq<char>, t: Seq<char>, relative: bool)
    requires
        scan(s, relative).1 == Seq::<char>::empty(),
        plain_name(t),
    ensures
        scan(s + t + seq!['/'], relative) == (scan(s, relative).0.push(t), Seq::<char>::empty()),
{
    lemma_scan_segment(s, t, relative);
    assert((s + t + seq!['/']).drop_last() =~= s + t);
}

/// A recipe at `<prefix>/<category>/<name>/recipe.toml`, with plain
/// category and name, is recovered as `(category, name)` whatever the
/// prefix.
pub proof fn lemma_category_and_name_of_recipe_path(prefix: Seq<char>, category: Seq<char>, name: Seq<char>)
    requires
        plain_name(category),
        plain_name(name),
    ensures
        spec_category_and_name(prefix + seq!['/'] + category + seq!['/'] + name + seq!['/']
            + "recipe.toml"@) == Ok::<(Seq<char>, Seq<char>), Seq<char>>((category, name)),
{
    reveal_strlit("recipe.toml");
    let file = "recipe.toml"@;
    assert(plain_name(file));
    let p0 = prefix + seq!['/'];
    let p1 = p0 + category + seq!['/'];
    let p2 = p1 + name + seq!['/'];
    let p = p2 + file;
    assert(p =~= prefix + seq!['/'] + category + seq!['/'] + name + seq!['/'] + "recipe.toml"@);
    let rel = is_relative(p);
    assert(p0.drop_last() =~= prefix);
    assert(scan(p0, rel).1 == Seq::<char>::empty());
    let d0 = scan(p0, rel).0;
    lemma_scan_segment_slash(p0, category, rel);
    lemma_scan_segment_slash(p1, name, rel);
    lemma_scan_segment(p2, file, rel);
    let c = path_components(p);
    assert(c == d0.push(category).push(name).push(file));
    assert(c.drop_last() == d0.push(category).push(name));
    assert(c.drop_last().drop_last() == d0.push(category));
}

} // verus!

verus! {

pub(crate) proof fn lemma_last_index_append(s: Seq<char>, t: Seq<char>, c: char)
    requires
        forall|i: int| 0 <= i < t.len() ==> #[trigger] t[i] != c,
    ensures
        last_index_of(s + t, c) == last_index_of(s, c),
    decreases t.len(),
{
    if t.len() == 0 {
        assert(s + t =~= s);
    } else {
        assert((s + t).drop_last() =~= s + t.drop_last());
        assert((s + t).last() == t[t.len() - 1]);
        lemma_last_index_append(s, t.drop_last(), c);
    }
}

/// The file name the pre-publish check recovers from an archive's
/// download URL is the file name the URL was built from.
pub proof fn lemma_url_names_its_archive(base_url: Seq<char>, filename: Seq<char>)
    requires
        forall|i: int| 0 <= i < filename.len() ==> #[trigger] filename[i] != '/',
    ensures
        url_file_name_of(strip_trailing_slashes(base_url) + "/packages/"@ + filename) == filename,
{
    reveal_strlit("/packages/");
    let s = strip_trailing_slashes(base_url) + "/packages/"@;
    assert(s.last() == '/');
    assert(last_index_of(s, '/') == s.len() - 1);
    lemma_last_index_append(s, filename, '/');
    assert((s + filename).subrange(s.len() as int, (s + filename).len() as int) =~= filename);
}

} // verus!
