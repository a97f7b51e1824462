//! File system paths as text, with `/` between components.

use vstd::prelude::*;

pub mod laws;

use crate::text::{chars_of, joined, same_text, string_of};

verus! {

/// A text cut at every `/`.
pub open spec fn segments(s: Seq<char>) -> Seq<Seq<char>>
    decreases s.len(),
{
    if s.len() == 0 {
        seq![Seq::empty()]
    } else {
        let before = segments(s.drop_last());
        if s.last() == '/' {
            before.push(Seq::empty())
        } else {
            before.update(before.len() - 1, before.last().push(s.last()))
        }
    }
}

/// Whether a segment at position `i` is a component: it is not empty, and it is not
/// `.`, but for a `.` at the very start.
pub open spec fn is_component(segment: Seq<char>, i: int) -> bool {
    segment.len() > 0 && (segment != seq!['.'] || i == 0)
}

/// The components among the first `n` segments.
pub open spec fn components_among(all: Seq<Seq<char>>, n: int) -> Seq<Seq<char>>
    decreases n,
{
    if n <= 0 {
        Seq::empty()
    } else {
        let before = components_among(all, n - 1);
        if is_component(all[n - 1], n - 1) {
            before.push(all[n - 1])
        } else {
            before
        }
    }
}

/// Whether a path starts at the root.
pub open spec fn is_absolute(path: Seq<char>) -> bool {
    path.len() > 0 && path[0] == '/'
}

/// The components of a path. The root is the component `/`.
pub open spec fn components(path: Seq<char>) -> Seq<Seq<char>> {
    let named = components_among(segments(path), segments(path).len() as int);
    if is_absolute(path) {
        seq![seq!['/']] + named
    } else {
        named
    }
}

/// Whether a path lies under a directory, or is that directory.
pub open spec fn is_under(path: Seq<char>, directory: Seq<char>) -> bool {
    components(directory).is_prefix_of(components(path))
}

/// Components written with a `/` between them.
pub open spec fn spelled(list: Seq<Seq<char>>) -> Seq<char>
    decreases list.len(),
{
    if list.len() == 0 {
        Seq::empty()
    } else if list.len() == 1 {
        list[0]
    } else {
        spelled(list.drop_last()) + seq!['/'] + list.last()
    }
}

/// What remains of a path under a directory.
pub open spec fn relative(path: Seq<char>, directory: Seq<char>) -> Seq<char> {
    spelled(components(path).skip(components(directory).len() as int))
}

/// A path appended to a directory. An absolute path stands for itself.
pub open spec fn appended(directory: Seq<char>, path: Seq<char>) -> Seq<char> {
    if is_absolute(path) || directory.len() == 0 {
        path
    } else if directory.last() == '/' {
        directory + path
    } else {
        directory + seq!['/'] + path
    }
}

/// The last component of a path, where it is a name.
pub open spec fn last_name(path: Seq<char>) -> Option<Seq<char>> {
    let all = components(path);
    if all.len() == 0 || all.last() == seq!['/'] || all.last() == seq!['.'] || all.last() == seq![
        '.',
        '.',
    ] {
        None
    } else {
        Some(all.last())
    }
}

proof fn lemma_segments_len(s: Seq<char>)
    ensures
        segments(s).len() > 0,
    decreases s.len(),
{
    if s.len() > 0 {
        lemma_segments_len(s.drop_last());
    }
}

/// The mathematical value of a list of texts.
pub open spec fn texts(list: Seq<String>) -> Seq<Seq<char>> {
    list.map_values(|s: String| s@)
}

/// Decides whether a text is a component at position `i`.
fn keeps(segment: &Vec<char>, i: usize) -> (r: bool)
    ensures
        r == is_component(segment@, i as int),
{
    if segment.len() == 0 {
        return false;
    }
    if segment.len() == 1 && segment[0] == '.' {
        assert(segment@ =~= seq!['.']);
        return i == 0;
    }
    assert(segment@ != seq!['.']) by {
        if segment@ == seq!['.'] {
            assert(segment@.len() == 1 && segment@[0] == '.');
        }
    }
    true
}

/// The components of a path.
pub fn components_of(path: &str) -> (r: Vec<String>)
    ensures
        texts(r@) == components(path@),
{
    let chars = chars_of(path);
    let mut out: Vec<String> = Vec::new();
    let absolute = chars.len() > 0 && chars[0] == '/';
    if absolute {
        let mut root: Vec<char> = Vec::new();
        root.push('/');
        assert(root@ =~= seq!['/']);
        out.push(string_of(&root));
    }
    let ghost start = texts(out@);
    assert(start =~= (if absolute {
        seq![seq!['/']]
    } else {
        Seq::<Seq<char>>::empty()
    }));
    let mut current: Vec<char> = Vec::new();
    let mut count: usize = 0;
    let mut i: usize = 0;
    proof {
        assert(chars@.take(0) =~= Seq::<char>::empty());
        assert(segments(chars@.take(0)) =~= seq![Seq::<char>::empty()]);
        assert(current@ =~= Seq::<char>::empty());
        assert(start + Seq::<Seq<char>>::empty() =~= start);
    }
    while i < chars.len()
        invariant
            i <= chars.len(),
            chars@ == path@,
            count <= i,
            segments(chars@.take(i as int)).len() == count + 1,
            segments(chars@.take(i as int)).last() == current@,
            texts(out@) == start + components_among(
                segments(chars@.take(i as int)),
                count as int,
            ),
        decreases chars.len() - i,
    {
        let c: char = chars[i];
        let ghost before = segments(chars@.take(i as int));
        let ghost after = segments(chars@.take(i + 1));
        proof {
            assert(chars@.take(i + 1).drop_last() =~= chars@.take(i as int));
            assert(chars@.take(i + 1).last() == c);
        }
        if c == '/' {
            let ghost list = out@;
            proof {
                assert(after =~= before.push(Seq::empty()));
                lemma_components_prefix(before, after, count as int);
                assert(after[count as int] == current@);
            }
            if keeps(&current, count) {
                out.push(string_of(&current));
                proof {
                    assert(texts(out@) =~= texts(list).push(current@));
                    let named = components_among(after, count as int);
                    assert((start + named).push(current@) =~= start + named.push(current@));
                }
            }
            current = Vec::new();
            count = count + 1;
            assert(current@ =~= after.last());
        } else {
            proof {
                assert(after =~= before.update(before.len() - 1, current@.push(c)));
                lemma_components_prefix(before, after, count as int);
            }
            current.push(c);
        }
        i = i + 1;
    }
    proof {
        assert(chars@.take(i as int) =~= path@);
        assert(segments(path@)[count as int] == current@);
    }
    let ghost list = out@;
    if keeps(&current, count) {
        out.push(string_of(&current));
        proof {
            assert(texts(out@) =~= texts(list).push(current@));
            let named = components_among(segments(path@), count as int);
            assert((start + named).push(current@) =~= start + named.push(current@));
        }
    }
    proof {
        assert(start + components_among(segments(path@), segments(path@).len() as int)
            =~= components(path@));
    }
    out
}

/// Components depend on the segments before them alone.
proof fn lemma_components_prefix(a: Seq<Seq<char>>, b: Seq<Seq<char>>, n: int)
    requires
        0 <= n <= a.len(),
        n <= b.len(),
        forall|i: int| 0 <= i < n ==> a[i] == b[i],
    ensures
        components_among(a, n) == components_among(b, n),
    decreases n,
{
    if n > 0 {
        lemma_components_prefix(a, b, n - 1);
    }
}

/// Decides whether two lists of texts agree in their first `n` elements.
fn agree(a: &Vec<String>, b: &Vec<String>, n: usize) -> (r: bool)
    requires
        n <= a.len(),
        n <= b.len(),
    ensures
        r == (texts(a@).take(n as int) == texts(b@).take(n as int)),
{
    let mut i: usize = 0;
    while i < n
        invariant
            i <= n,
            n <= a.len(),
            n <= b.len(),
            forall|j: int| 0 <= j < i ==> (#[trigger] a@[j])@ == b@[j]@,
        decreases n - i,
    {
        if !same_text(a[i].as_str(), b[i].as_str()) {
            assert(texts(a@).take(n as int)[i as int] != texts(b@).take(n as int)[i as int]);
            return false;
        }
        i = i + 1;
    }
    assert(texts(a@).take(n as int) =~= texts(b@).take(n as int));
    true
}

/// Whether a path lies under a directory, or is that directory.
pub fn lies_under(path: &str, directory: &str) -> (r: bool)
    ensures
        r == is_under(path@, directory@),
{
    let inner = components_of(path);
    let outer = components_of(directory);
    if outer.len() > inner.len() {
        return false;
    }
    let r = agree(&inner, &outer, outer.len());
    proof {
        let n = outer@.len() as int;
        assert(texts(outer@).take(n) =~= components(directory@));
        assert(components(path@).take(n) =~= components(path@).subrange(0, n));
    }
    r
}

/// Whether two paths have the same components.
pub fn same_path(a: &str, b: &str) -> (r: bool)
    ensures
        r == (components(a@) == components(b@)),
{
    let x = components_of(a);
    let y = components_of(b);
    if x.len() != y.len() {
        return false;
    }
    proof {
        assert(texts(x@).take(x@.len() as int) =~= components(a@));
        assert(texts(y@).take(x@.len() as int) =~= components(b@));
    }
    agree(&x, &y, x.len())
}

/// What remains of a path under a directory.
pub fn relative_path(path: &str, directory: &str) -> (r: Option<String>)
    ensures
        match r {
            Some(rest) => is_under(path@, directory@) && rest@ == relative(path@, directory@),
            None => !is_under(path@, directory@),
        },
{
    if !lies_under(path, directory) {
        return None;
    }
    let all = components_of(path);
    let from: usize = components_of(directory).len();
    let ghost rest = components(path@).skip(from as int);
    let mut out = String::new();
    let mut i: usize = from;
    proof {
        assert(components(path@).len() == all@.len());
        assert(rest.take(0) =~= Seq::<Seq<char>>::empty());
    }
    while i < all.len()
        invariant
            from <= i <= all.len(),
            texts(all@) == components(path@),
            rest == components(path@).skip(from as int),
            out@ == spelled(rest.take(i - from)),
        decreases all.len() - i,
    {
        let ghost before = rest.take(i - from);
        let ghost after = rest.take(i - from + 1);
        proof {
            assert(after.drop_last() =~= before);
            assert(after.last() == all@[i as int]@) by {
                assert(texts(all@)[i as int] == all@[i as int]@);
            }
        }
        if i == from {
            out = all[i].clone();
            assert(out@ == after[0]);
        } else {
            let ghost so_far = out@;
            out.push('/');
            out.append(all[i].as_str());
            assert(so_far + seq!['/'] + all@[i as int]@ =~= so_far.push('/') + all@[i as int]@);
        }
        i = i + 1;
    }
    assert(rest.take(i - from) =~= rest);
    Some(out)
}

/// A path appended to a directory.
pub fn join_path(directory: &str, path: &str) -> (r: String)
    ensures
        r@ == appended(directory@, path@),
{
    let outer = chars_of(directory);
    let inner = chars_of(path);
    if (inner.len() > 0 && inner[0] == '/') || outer.len() == 0 {
        return path.to_owned();
    }
    if outer[outer.len() - 1] == '/' {
        joined(directory, path)
    } else {
        let mut out = directory.to_owned();
        out.push('/');
        out.append(path);
        assert(directory@.push('/') + path@ =~= directory@ + seq!['/'] + path@);
        out
    }
}

/// The last component of a path, where it is a name.
pub fn file_name_of(path: &str) -> (r: Option<String>)
    ensures
        match r {
            Some(name) => last_name(path@) == Some(name@),
            None => last_name(path@) is None,
        },
{
    let all = components_of(path);
    if all.len() == 0 {
        return None;
    }
    let last = &all[all.len() - 1];
    assert(components(path@).last() == last@) by {
        assert(texts(all@)[all@.len() - 1] == last@);
    }
    let chars = chars_of(last.as_str());
    let special = (chars.len() == 1 && (chars[0] == '/' || chars[0] == '.')) || (chars.len() == 2
        && chars[0] == '.' && chars[1] == '.');
    proof {
        let name = last@;
        if special {
            if name.len() == 1 {
                assert(name =~= seq![name[0]]);
            } else {
                assert(name =~= seq!['.', '.']);
            }
        } else {
            if name == seq!['/'] || name == seq!['.'] {
                assert(name.len() == 1);
                assert(seq!['/'][0] == '/' && seq!['.'][0] == '.');
            }
            if name == seq!['.', '.'] {
                assert(name.len() == 2 && name[0] == '.' && name[1] == '.');
            }
        }
    }
    if special {
        None
    } else {
        Some(last.clone())
    }
}

} // verus!
