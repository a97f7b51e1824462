//! How paths come apart and together.

use vstd::prelude::*;
use super::{
    appended, components, components_among, is_absolute, is_component, is_under, last_name,
    lemma_segments_len, relative, segments, spelled,
};
use crate::reconcile::laws::picks;

verus! {

proof fn lemma_spelled_grows(list: Seq<Seq<char>>, c: char)
    requires
        list.len() > 0,
    ensures
        spelled(list.update(list.len() - 1, list.last().push(c))) == spelled(list).push(c),
{
    let longer = list.update(list.len() - 1, list.last().push(c));
    if list.len() > 1 {
        assert(longer.drop_last() =~= list.drop_last());
        assert(longer.last() == list.last().push(c));
        assert(spelled(longer) =~= spelled(list).push(c));
    }
}

/// A path is cut at each of its slashes and nowhere else: the pieces hold none, and written
/// with one between them they are the path again.
pub proof fn law_a_path_is_cut_at_its_slashes(path: Seq<char>)
    ensures
        segments(path).len() > 0,
        spelled(segments(path)) == path,
        forall|i: int|
            0 <= i < segments(path).len() ==> !(#[trigger] segments(path)[i]).contains('/'),
    decreases path.len(),
{
    lemma_segments_len(path);
    if path.len() > 0 {
        let init = path.drop_last();
        let before = segments(init);
        let all = segments(path);
        law_a_path_is_cut_at_its_slashes(init);
        lemma_segments_len(init);
        assert(path =~= init.push(path.last()));
        if path.last() == '/' {
            assert(all.drop_last() =~= before);
            assert(spelled(all) =~= path);
            assert forall|i: int| 0 <= i < all.len() implies !(#[trigger] all[i]).contains(
                '/',
            ) by {
                if i < before.len() {
                    assert(all[i] == before[i]);
                }
            }
        } else {
            lemma_spelled_grows(before, path.last());
            assert forall|i: int| 0 <= i < all.len() implies !(#[trigger] all[i]).contains(
                '/',
            ) by {
                if i == before.len() - 1 {
                    assert(all[i] == before[i].push(path.last()));
                    if all[i].contains('/') {
                        let k = choose|k: int| 0 <= k < all[i].len() && all[i][k] == '/';
                        assert(before[i][k] == '/');
                        assert(before[i].contains('/'));
                    }
                } else {
                    assert(all[i] == before[i]);
                }
            }
        }
    } else {
        assert(segments(path) == seq![Seq::<char>::empty()]);
        assert(spelled(segments(path)) =~= path);
    }
}

/// Which of the first `n` pieces of a path count: those that name something.
pub open spec fn counting(all: Seq<Seq<char>>) -> Seq<(int, Seq<char>)> {
    Seq::new(all.len(), |i: int| (i, all[i]))
}

proof fn lemma_components_picks(all: Seq<Seq<char>>, n: int)
    requires
        0 <= n <= all.len(),
    ensures
        picks(
            counting(all),
            n,
            |piece: (int, Seq<char>)|
                piece.1.len() > 0 && !(piece.1 == seq!['.'] && piece.0 > 0),
            |piece: (int, Seq<char>)| piece.1,
            components_among(all, n),
        ),
    decreases n,
{
    if n > 0 {
        lemma_components_picks(all, n - 1);
        let before = components_among(all, n - 1);
        if is_component(all[n - 1], n - 1) {
            assert(before.push(all[n - 1]).drop_last() =~= before);
        }
    }
}

/// The components of a path are its pieces in order, without empty ones and without a `.`
/// that does not come first; behind the root, where the path starts there.
pub proof fn law_components_are_the_pieces_that_count(path: Seq<char>)
    ensures
        ({
            let named = if path.len() > 0 && path[0] == '/' {
                components(path).skip(1)
            } else {
                components(path)
            };
            &&& path.len() > 0 && path[0] == '/' ==> components(path).len() > 0 && components(
                path,
            )[0] == seq!['/']
            &&& picks(
                counting(segments(path)),
                segments(path).len() as int,
                |piece: (int, Seq<char>)|
                    piece.1.len() > 0 && !(piece.1 == seq!['.'] && piece.0 > 0),
                |piece: (int, Seq<char>)| piece.1,
                named,
            )
        }),
{
    let all = segments(path);
    lemma_components_picks(all, all.len() as int);
    let named = components_among(all, all.len() as int);
    if path.len() > 0 && path[0] == '/' {
        assert((seq![seq!['/']] + named).skip(1) =~= named);
    }
}

/// A path lies under a directory just where it has the directory's components and then maybe
/// more, and what remains of it there are those.
pub proof fn law_what_remains_under_a_directory(path: Seq<char>, directory: Seq<char>)
    ensures
        is_under(path, directory) <==> exists|rest: Seq<Seq<char>>|
            components(path) == #[trigger] (components(directory) + rest),
        forall|rest: Seq<Seq<char>>|
            components(path) == #[trigger] (components(directory) + rest) ==> relative(
                path,
                directory,
            ) == spelled(rest),
        is_under(path, path),
        relative(path, path).len() == 0,
{
    let (whole, start) = (components(path), components(directory));
    if is_under(path, directory) {
        let rest = whole.skip(start.len() as int);
        assert(whole =~= start + rest);
    }
    assert forall|rest: Seq<Seq<char>>| whole == #[trigger] (start + rest) implies relative(
        path,
        directory,
    ) == spelled(rest) by {
        assert(whole.skip(start.len() as int) =~= rest);
    }
    if exists|rest: Seq<Seq<char>>| whole == #[trigger] (start + rest) {
        let rest = choose|rest: Seq<Seq<char>>| whole == #[trigger] (start + rest);
        assert(start =~= whole.subrange(0, start.len() as int));
    }
    assert(whole.skip(whole.len() as int) =~= Seq::<Seq<char>>::empty());
}

/// A path behind a directory begins with the directory, ends with the path and has a slash
/// where they meet. An absolute path, and one behind no directory, stands for itself.
pub proof fn law_a_path_stands_behind_its_directory(directory: Seq<char>, path: Seq<char>)
    ensures
        ({
            let whole = appended(directory, path);
            let at = whole.len() - path.len();
            &&& (path.len() > 0 && path[0] == '/') || directory.len() == 0 ==> whole == path
            &&& !(path.len() > 0 && path[0] == '/') && directory.len() > 0 ==> {
                &&& whole.take(directory.len() as int) == directory
                &&& 0 < at <= directory.len() + 1
                &&& at >= directory.len()
                &&& whole.skip(at) == path
                &&& whole[at - 1] == '/'
                &&& at == directory.len() <==> directory.last() == '/'
            }
        }),
{
    let whole = appended(directory, path);
    if !is_absolute(path) && directory.len() > 0 {
        let at = whole.len() - path.len();
        assert(whole.take(directory.len() as int) =~= directory);
        assert(whole.skip(at) =~= path);
    }
}

/// A path is named by its last component, where that is a name: not the root, and no `.` or
/// `..`.
pub proof fn law_a_path_is_named_by_its_last_component(path: Seq<char>)
    ensures
        ({
            let all = components(path);
            let last = all[all.len() - 1];
            let is_name = all.len() > 0 && last != seq!['/'] && last != seq!['.'] && last
                != seq!['.', '.'];
            &&& last_name(path) is Some <==> is_name
            &&& is_name ==> last_name(path)->0 == last
        }),
{
}

} // verus!
