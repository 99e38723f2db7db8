//! Where the tool keeps its files, below the user's home directory.

use vstd::prelude::*;
use vstd::string::StringExecFns;
use crate::error::{Error, ErrorView};
use crate::text::{chars_eq, chars_of, line_views, part};

verus! {

/// `part` appended to the path `base`: with a separator between them,
/// unless `base` is empty or ends with one.
pub open spec fn joined(base: Seq<char>, part: Seq<char>) -> Seq<char> {
    if base.len() == 0 {
        part
    } else if base.last() == '/' {
        base + part
    } else {
        base + "/"@ + part
    }
}

/// The managed directory of the user whose home directory is `home`.
pub open spec fn bin_dir_in(home: Seq<char>) -> Seq<char> {
    joined(joined(joined(home, ".local"@), "bin"@), "x"@)
}

/// The directory of the configuration file of the user whose home
/// directory is `home`.
pub open spec fn config_dir_in(home: Seq<char>) -> Seq<char> {
    joined(joined(home, ".config"@), "x"@)
}

/// The configuration file of the user whose home directory is `home`.
pub open spec fn config_path_in(home: Seq<char>) -> Seq<char> {
    joined(config_dir_in(home), "config.json"@)
}

/// Appends `part` to the path `base`.
pub fn join(base: &str, part: &str) -> (path: String)
    ensures
        path@ == joined(base@, part@),
{
    let chars = chars_of(base);
    let mut path = String::from_str(base);
    if chars.len() > 0 && chars[chars.len() - 1] != '/' {
        path.append("/");
    }
    path.append(part);
    proof {
        if base@.len() == 0 {
            assert(base@ + part@ =~= part@);
        }
    }
    path
}

/// The managed directory: `.local/bin/x` below the home directory. The
/// caller creates it where it is missing.
pub fn get_bin_dir(home: Option<&str>) -> (dir: Result<String, Error>)
    ensures
        match dir {
            Ok(d) => home matches Some(h) && d@ == bin_dir_in(h@),
            Err(e) => home is None && e@ == ErrorView::NoHomeDir,
        },
{
    match home {
        Some(h) => {
            let local = join(h, ".local");
            let bin = join(local.as_str(), "bin");
            Ok(join(bin.as_str(), "x"))
        },
        None => Err(Error::NoHomeDir),
    }
}

/// The directory that holds the configuration file: `.config/x` below the
/// home directory. The caller creates it where it is missing.
pub fn get_config_dir(home: Option<&str>) -> (dir: Result<String, Error>)
    ensures
        match dir {
            Ok(d) => home matches Some(h) && d@ == config_dir_in(h@),
            Err(e) => home is None && e@ == ErrorView::NoHomeDir,
        },
{
    match home {
        Some(h) => {
            let config = join(h, ".config");
            Ok(join(config.as_str(), "x"))
        },
        None => Err(Error::NoHomeDir),
    }
}

/// The configuration file: `.config/x/config.json` below the home
/// directory.
pub fn get_config_path(home: Option<&str>) -> (path: Result<String, Error>)
    ensures
        match path {
            Ok(p) => home matches Some(h) && p@ == config_path_in(h@),
            Err(e) => home is None && e@ == ErrorView::NoHomeDir,
        },
{
    match get_config_dir(home) {
        Ok(dir) => Ok(join(dir.as_str(), "config.json")),
        Err(e) => Err(e),
    }
}

/// The place of the first separator of `text`, or its length where it has
/// none.
pub open spec fn segment_end(text: Seq<char>) -> int
    decreases text.len(),
{
    if text.len() == 0 || text[0] == '/' {
        0
    } else {
        1 + segment_end(text.drop_first())
    }
}

/// The named parts of a path, in order: what stands between separators,
/// but for what is empty and what is a single dot.
pub open spec fn named_parts(text: Seq<char>) -> Seq<Seq<char>>
    decreases text.len(),
{
    let end = segment_end(text);
    let head = text.take(end);
    let rest = if 0 <= end < text.len() {
        named_parts(text.skip(end + 1))
    } else {
        Seq::empty()
    };
    if text.len() == 0 {
        Seq::empty()
    } else if head.len() == 0 || head == seq!['.'] {
        rest
    } else {
        seq![head] + rest
    }
}

/// The components of a path, as `std::path::Path` tells them where the
/// separator is `/`: the root, where the path begins with a separator; a
/// dot, where the path begins with one as its first part; then the named
/// parts. Repeated separators, a separator at the end and dots further in
/// are left aside.
pub open spec fn components(path: Seq<char>) -> Seq<Seq<char>> {
    let start = if path.len() > 0 && path[0] == '/' {
        seq![seq!['/']]
    } else if path.take(segment_end(path)) == seq!['.'] {
        seq![seq!['.']]
    } else {
        Seq::empty()
    };
    start + named_parts(path)
}

/// Whether two paths are the same path: they have the same components.
pub open spec fn same_path(a: Seq<char>, b: Seq<char>) -> bool {
    components(a) == components(b)
}

/// The first part of `text` ends at `end` when a separator or the end of
/// the text is there and no separator before.
proof fn lemma_segment_end_is(text: Seq<char>, end: int)
    requires
        0 <= end <= text.len(),
        forall|k: int| 0 <= k < end ==> text[k] != '/',
        end < text.len() ==> text[end] == '/',
    ensures
        segment_end(text) == end,
    decreases end,
{
    if end > 0 {
        assert forall|k: int| 0 <= k < end - 1 implies text.drop_first()[k] != '/' by {
            assert(text.drop_first()[k] == text[k + 1]);
        }
        lemma_segment_end_is(text.drop_first(), end - 1);
    }
}

/// Where the part that begins at `start` ends.
fn part_end(chars: &Vec<char>, start: usize) -> (end: usize)
    requires
        start <= chars.len(),
    ensures
        start <= end <= chars.len(),
        end - start == segment_end(chars@.skip(start as int)),
{
    let mut end: usize = start;
    while end < chars.len() && chars[end] != '/'
        invariant
            start <= end <= chars.len(),
            forall|k: int| start <= k < end ==> chars@[k] != '/',
        decreases chars.len() - end,
    {
        end += 1;
    }
    proof {
        lemma_segment_end_is(chars@.skip(start as int), end - start);
    }
    end
}

/// Whether `word` is a single dot.
fn is_dot(word: &Vec<char>) -> (dot: bool)
    ensures
        dot == (word@ == seq!['.']),
{
    let dot = word.len() == 1 && word[0] == '.';
    proof {
        if dot {
            assert(word@ =~= seq!['.']);
        }
    }
    dot
}

/// The components of `path`.
pub fn path_components(path: &str) -> (parts: Vec<Vec<char>>)
    ensures
        line_views(parts@) == components(path@),
{
    let chars = chars_of(path);
    let mut parts: Vec<Vec<char>> = Vec::new();
    let ghost start_views: Seq<Seq<char>>;
    assert(path@.skip(0) =~= path@);
    if chars.len() > 0 && chars[0] == '/' {
        let mut root: Vec<char> = Vec::new();
        root.push('/');
        assert(root@ =~= seq!['/']);
        parts.push(root);
    } else {
        let end = part_end(&chars, 0);
        let first = part(&chars, 0, end);
        assert(path@.take(end as int) =~= path@.subrange(0, end as int));
        if is_dot(&first) {
            parts.push(first);
        }
    }
    proof {
        start_views = line_views(parts@);
        assert(start_views + named_parts(path@) =~= components(path@));
    }
    let mut start: usize = 0;
    while start < chars.len()
        invariant
            start <= chars.len(),
            chars@ == path@,
            start_views + named_parts(path@) == line_views(parts@) + named_parts(
                path@.skip(start as int),
            ),
        decreases chars.len() - start,
    {
        let ghost rest = path@.skip(start as int);
        let end = part_end(&chars, start);
        let head = part(&chars, start, end);
        let next: usize = if end < chars.len() {
            end + 1
        } else {
            end
        };
        proof {
            assert(rest.take(end - start) =~= path@.subrange(start as int, end as int));
            if end < chars.len() {
                assert(rest.skip(end - start + 1) =~= path@.skip(next as int));
            } else {
                assert(path@.skip(next as int) =~= Seq::<char>::empty());
            }
        }
        if head.len() > 0 && !is_dot(&head) {
            proof {
                let tail = named_parts(path@.skip(next as int));
                assert(named_parts(rest) =~= seq![head@] + tail);
                assert(line_views(parts@.push(head)) =~= line_views(parts@) + seq![head@]);
                assert(line_views(parts@) + (seq![head@] + tail) =~= (line_views(parts@) + seq![
                    head@,
                ]) + tail);
            }
            parts.push(head);
        } else {
            proof {
                assert(named_parts(rest) =~= named_parts(path@.skip(next as int)));
            }
        }
        start = next;
    }
    proof {
        assert(named_parts(path@.skip(start as int)) =~= Seq::<Seq<char>>::empty());
        assert(line_views(parts@) + Seq::<Seq<char>>::empty() =~= line_views(parts@));
    }
    parts
}

/// Whether two lists of components are the same.
pub fn same_components(a: &Vec<Vec<char>>, b: &Vec<Vec<char>>) -> (same: bool)
    ensures
        same == (line_views(a@) == line_views(b@)),
{
    if a.len() != b.len() {
        return false;
    }
    let mut i: usize = 0;
    while i < a.len()
        invariant
            i <= a.len(),
            a.len() == b.len(),
            forall|k: int| 0 <= k < i ==> a@[k]@ == b@[k]@,
        decreases a.len() - i,
    {
        if !chars_eq(&a[i], &b[i]) {
            assert(line_views(a@)[i as int] != line_views(b@)[i as int]);
            return false;
        }
        i += 1;
    }
    assert(line_views(a@) =~= line_views(b@));
    true
}

/// Whether two paths are the same path.
pub fn is_same_path(a: &str, b: &str) -> (same: bool)
    ensures
        same == same_path(a@, b@),
{
    let x = path_components(a);
    let y = path_components(b);
    same_components(&x, &y)
}

} // verus!
