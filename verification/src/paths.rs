//! Where the result for an input file is written: the name of the file with a
//! prefix and a suffix, in the output directory.
//!
//! Paths are text, and `/` parts their components.

use vstd::prelude::*;
use vstd::string::{StrSliceExecFns, StringExecFns};
use crate::text::{
    chars_of, find_last_char, find_last_char_in, last_index_of, lemma_last_index_of_bounds,
};

verus! {

/// The last component of a path as it is written: what follows its last `/`.
pub open spec fn last_component(path: Seq<char>) -> Seq<char> {
    path.skip(last_index_of(path, '/') + 1)
}

/// The name of the file that a path leads to: its last component, where a `/` at
/// the end and a component `.` behind a `/` do not count. A path that is empty,
/// that is `.` or the root, or that ends in `..`, names no file.
pub open spec fn file_name_of(path: Seq<char>) -> Option<Seq<char>>
    decreases path.len(),
{
    let slash = last_index_of(path, '/');
    let last = last_component(path);
    if path.len() == 0 {
        None
    } else if path.last() == '/' {
        file_name_of(path.drop_last())
    } else if last == seq!['.'] {
        if 0 <= slash && slash + 1 < path.len() {
            file_name_of(path.take(slash + 1))
        } else {
            None
        }
    } else if last == seq!['.', '.'] {
        None
    } else {
        Some(last)
    }
}

/// `text`, or nothing where there is none.
pub open spec fn text_or_empty(text: Option<Seq<char>>) -> Seq<char> {
    match text {
        Some(t) => t,
        None => Seq::<char>::empty(),
    }
}

/// The stem of the file name of a path and its extension. The last `.` of the
/// name parts them, unless the name begins with it; a name without such a `.`
/// has no extension. Where the path names no file, the stem is empty.
pub open spec fn parted(filename: Seq<char>) -> (Seq<char>, Option<Seq<char>>) {
    let file = text_or_empty(file_name_of(filename));
    let dot = last_index_of(file, '.');
    if dot <= 0 {
        (file, None)
    } else {
        (file.take(dot), Some(file.skip(dot + 1)))
    }
}

/// The name of the output file for the file named `file_name`: the prefix stands
/// before the name; the suffix stands behind the stem of what that gives, and
/// behind the whole of it where it has no extension.
pub open spec fn output_name(
    file_name: Seq<char>,
    prefix: Option<Seq<char>>,
    suffix: Option<Seq<char>>,
) -> Seq<char> {
    let named = text_or_empty(prefix) + file_name;
    match suffix {
        None => named,
        Some(s) => match parted(named).1 {
            None => named + s,
            Some(ext) => parted(named).0 + s + seq!['.'] + ext,
        },
    }
}

/// The path of `name` in the directory `dir`. A name that begins with `/` is a
/// path of its own.
pub open spec fn joined(dir: Seq<char>, name: Seq<char>) -> Seq<char> {
    if name.len() > 0 && name[0] == '/' {
        name
    } else if dir.len() == 0 || dir.last() == '/' {
        dir + name
    } else {
        dir + seq!['/'] + name
    }
}

/// The path of the output file for the input file at the path `input_file`: of
/// the input only the name of the file is kept, its directories are dropped.
pub open spec fn output_path(
    input_file: Seq<char>,
    output_dir: Seq<char>,
    prefix: Option<Seq<char>>,
    suffix: Option<Seq<char>>,
) -> Seq<char> {
    joined(output_dir, output_name(text_or_empty(file_name_of(input_file)), prefix, suffix))
}

pub open spec fn option_view(t: &Option<String>) -> Option<Seq<char>> {
    match t {
        Some(s) => Some(s@),
        None => None,
    }
}

/// Where in `v` the name of the file stands that the path `v` leads to.
fn file_name_bounds(v: &Vec<char>) -> (r: Option<(usize, usize)>)
    ensures
        match r {
            Some(b) => b.0 <= b.1 <= v.len() && file_name_of(v@) == Some(
                v@.subrange(b.0 as int, b.1 as int),
            ),
            None => file_name_of(v@) is None,
        },
{
    let mut end: usize = v.len();
    assert(v@.take(end as int) =~= v@);
    while end > 0
        invariant
            end <= v.len(),
            file_name_of(v@) == file_name_of(v@.take(end as int)),
        decreases end,
    {
        let ghost path = v@.take(end as int);
        if v[end - 1] == '/' {
            assert(path.drop_last() =~= v@.take(end - 1));
            end -= 1;
        } else {
            proof {
                lemma_last_index_of_bounds(path, '/');
            }
            let start: usize = match find_last_char_in(v, end, '/') {
                Some(i) => i + 1,
                None => 0,
            };
            assert(last_component(path) =~= v@.subrange(start as int, end as int));
            let is_here = end - start == 1 && v[start] == '.';
            let is_parent = end - start == 2 && v[start] == '.' && v[start + 1] == '.';
            let ghost last = v@.subrange(start as int, end as int);
            assert(is_here == (last == seq!['.'])) by {
                if is_here {
                    assert(last =~= seq!['.']);
                } else if last == seq!['.'] {
                    assert(last.len() == 1 && last[0] == '.');
                }
            }
            assert(is_parent == (last == seq!['.', '.'])) by {
                if is_parent {
                    assert(last =~= seq!['.', '.']);
                } else if last == seq!['.', '.'] {
                    assert(last.len() == 2 && last[0] == '.' && last[1] == '.');
                }
            }
            if is_here {
                if start == 0 {
                    return None;
                }
                assert(path.take(start as int) =~= v@.take(start as int));
                end = start;
            } else if is_parent {
                return None;
            } else {
                return Some((start, end));
            }
        }
    }
    None
}

/// The name of the file that the path `path` leads to, or nothing where it
/// names no file.
pub fn file_name(path: &str) -> (r: String)
    ensures
        r@ == text_or_empty(file_name_of(path@)),
{
    let v = chars_of(path);
    match file_name_bounds(&v) {
        Some(b) => path.substring_char(b.0, b.1).to_owned(),
        None => String::new(),
    }
}

/// The stem of the file name of a path and its extension.
pub fn get_parted_filename(filename: &str) -> (r: (String, Option<String>))
    ensures
        r.0@ == parted(filename@).0,
        option_view(&r.1) == parted(filename@).1,
{
    let file = file_name(filename);
    let f = chars_of(file.as_str());
    proof {
        lemma_last_index_of_bounds(f@, '.');
    }
    let dot = find_last_char(&f, '.');
    match dot {
        Some(d) => {
            if d == 0 {
                (file, None)
            } else {
                assert(d == last_index_of(f@, '.'));
                assert(d < f.len());
                let stem = file.as_str().substring_char(0, d);
                let ext = file.as_str().substring_char(d + 1, f.len());
                assert(stem@ =~= file@.take(d as int));
                assert(ext@ =~= file@.skip(d + 1));
                (stem.to_owned(), Some(ext.to_owned()))
            }
        },
        None => (file, None),
    }
}

/// The name of the output file for the file named `file_name`.
pub fn make_name(file_name: &str, prefix: &Option<String>, suffix: &Option<String>) -> (r: String)
    ensures
        r@ == output_name(file_name@, option_view(prefix), option_view(suffix)),
{
    let mut named = match prefix {
        None => String::new(),
        Some(prefix) => prefix.clone(),
    };
    named.append(file_name);
    match suffix {
        None => named,
        Some(suffix) => {
            let parted_filename = get_parted_filename(named.as_str());
            match parted_filename.1 {
                None => {
                    named.append(suffix.as_str());
                    named
                },
                Some(ext) => {
                    let mut r = parted_filename.0;
                    r.append(suffix.as_str());
                    r.append(".");
                    r.append(ext.as_str());
                    proof {
                        reveal_strlit(".");
                        assert("."@ =~= seq!['.']);
                    }
                    r
                },
            }
        },
    }
}

/// The path of `name` in the directory `dir`.
pub fn join(dir: &str, name: &str) -> (r: String)
    ensures
        r@ == joined(dir@, name@),
{
    let d = chars_of(dir);
    let m = chars_of(name);
    if m.len() > 0 && m[0] == '/' {
        return name.to_owned();
    }
    let mut r = dir.to_owned();
    if !(d.len() == 0 || d[d.len() - 1] == '/') {
        r.append("/");
        proof {
            reveal_strlit("/");
            assert("/"@ =~= seq!['/']);
        }
    }
    r.append(name);
    r
}

/// The path of the output file for the input file at the path `input_file`, in
/// the directory `output_dir`.
pub fn make_path(
    input_file: &str,
    output_dir: &str,
    prefix: &Option<String>,
    suffix: &Option<String>,
) -> (r: String)
    ensures
        r@ == output_path(input_file@, output_dir@, option_view(prefix), option_view(suffix)),
{
    let name = file_name(input_file);
    let output = make_name(name.as_str(), prefix, suffix);
    join(output_dir, output.as_str())
}

/// A text that does not hold `c` has no last position of it.
pub proof fn lemma_absent(s: Seq<char>, c: char)
    requires
        forall|i: int| 0 <= i < s.len() ==> s[i] != c,
    ensures
        last_index_of(s, c) == -1,
    decreases s.len(),
{
    if s.len() > 0 {
        assert forall|i: int| 0 <= i < s.drop_last().len() implies s.drop_last()[i] != c by {
            assert(s.drop_last()[i] == s[i]);
        }
        lemma_absent(s.drop_last(), c);
    }
}

/// A name without `/` that is not empty, `.` or `..` is the file name of itself.
pub proof fn lemma_plain_name(name: Seq<char>)
    requires
        name.len() > 0,
        forall|i: int| 0 <= i < name.len() ==> name[i] != '/',
        name != seq!['.'],
        name != seq!['.', '.'],
    ensures
        file_name_of(name) == Some(name),
{
    lemma_absent(name, '/');
    assert(last_component(name) =~= name);
}

/// Without prefix and suffix the output file has the name of the input file.
pub proof fn name_stays_without_prefix_and_suffix(file_name: Seq<char>)
    ensures
        output_name(file_name, None, None) == file_name,
{
    assert(Seq::<char>::empty() + file_name =~= file_name);
}

/// A name without a dot gets the suffix at its end, and no dot with it.
pub proof fn suffix_ends_name_without_extension(file_name: Seq<char>, suffix: Seq<char>)
    requires
        file_name.len() > 0,
        forall|i: int| 0 <= i < file_name.len() ==> file_name[i] != '.' && file_name[i] != '/',
    ensures
        output_name(file_name, None, Some(suffix)) == file_name + suffix,
{
    assert(Seq::<char>::empty() + file_name =~= file_name);
    assert(file_name != seq!['.']) by {
        assert(file_name[0] != '.');
    }
    assert(file_name != seq!['.', '.']) by {
        assert(file_name[0] != '.');
    }
    lemma_plain_name(file_name);
    lemma_absent(file_name, '.');
}

} // verus!
