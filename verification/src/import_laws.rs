//! What holds of the order in which stylesheets are read.

use crate::imports;
use crate::stylesheet;
use crate::stylesheet::{CssImport, CssModuleInfo, Stylesheet};
use vstd::prelude::*;

verus! {

/// Whether each file of `path` imports the next one.
pub open spec fn is_import_chain(files: Seq<Stylesheet>, path: Seq<usize>) -> bool {
    &&& path.len() > 0
    &&& forall|i: int|
        0 <= i < path.len() - 1 ==> imports::imported(files, #[trigger] path[i]).contains(
            path[i + 1],
        )
}

/// Whether a chain of imports leads from file `a` to file `b`.
pub open spec fn reaches(files: Seq<Stylesheet>, a: usize, b: usize) -> bool {
    exists|path: Seq<usize>| #[trigger]
        is_import_chain(files, path) && path[0] == a && path.last() == b
}

proof fn lemma_reaches_itself(files: Seq<Stylesheet>, a: usize)
    ensures
        reaches(files, a, a),
{
    assert(is_import_chain(files, seq![a]));
    assert(seq![a].last() == a);
}

proof fn lemma_reaches_import(files: Seq<Stylesheet>, a: usize, b: usize, c: usize)
    requires
        reaches(files, a, b),
        imports::imported(files, b).contains(c),
    ensures
        reaches(files, a, c),
{
    let path = choose|path: Seq<usize>| #[trigger]
        is_import_chain(files, path) && path[0] == a && path.last() == b;
    let longer = path.push(c);
    assert forall|i: int| 0 <= i < longer.len() - 1 implies imports::imported(
        files,
        #[trigger] longer[i],
    ).contains(longer[i + 1]) by {
        if i < path.len() - 1 {
            assert(longer[i] == path[i]);
        }
    }
    assert(is_import_chain(files, longer));
    assert(longer.last() == c);
}

proof fn lemma_reaches_on(files: Seq<Stylesheet>, a: usize, b: usize, c: usize)
    requires
        imports::imported(files, a).contains(b),
        reaches(files, b, c),
    ensures
        reaches(files, a, c),
{
    let path = choose|path: Seq<usize>| #[trigger]
        is_import_chain(files, path) && path[0] == b && path.last() == c;
    let longer = seq![a] + path;
    assert forall|i: int| 0 <= i < longer.len() - 1 implies imports::imported(
        files,
        #[trigger] longer[i],
    ).contains(longer[i + 1]) by {
        if i > 0 {
            assert(longer[i] == path[i - 1]);
        }
    }
    assert(is_import_chain(files, longer));
    assert(longer.last() == c);
}

proof fn lemma_reaches_trans(files: Seq<Stylesheet>, a: usize, b: usize, c: usize)
    requires
        reaches(files, a, b),
        reaches(files, b, c),
    ensures
        reaches(files, a, c),
{
    let path = choose|path: Seq<usize>| #[trigger]
        is_import_chain(files, path) && path[0] == b && path.last() == c;
    lemma_reaches_along(files, a, path, path.len() - 1);
}

proof fn lemma_reaches_along(files: Seq<Stylesheet>, a: usize, path: Seq<usize>, i: int)
    requires
        is_import_chain(files, path),
        reaches(files, a, path[0]),
        0 <= i < path.len(),
    ensures
        reaches(files, a, path[i]),
    decreases i,
{
    if i > 0 {
        lemma_reaches_along(files, a, path, i - 1);
        assert(imports::imported(files, path[i - 1]).contains(path[i - 1 + 1]));
        lemma_reaches_import(files, a, path[i - 1], path[i]);
    }
}

/// Imports are expanded one behind the other: the expansion of two lists is
/// that of the first, and then that of the second. A file that is named twice
/// is there twice.
pub proof fn law_imports_one_behind_the_other(
    files: Seq<Stylesheet>,
    first: Seq<usize>,
    second: Seq<usize>,
    path: Set<usize>,
)
    ensures
        imports::expansions(files, first + second, path) == imports::expansions(files, first, path)
            + imports::expansions(files, second, path),
    decreases second.len(),
{
    if second.len() == 0 {
        assert(first + second == first);
    } else {
        law_imports_one_behind_the_other(files, first, second.drop_last(), path);
        assert((first + second).drop_last() == first + second.drop_last());
    }
}

/// Where list entry `i` begins and ends in the expansion of the list.
proof fn lemma_entry_in_list(files: Seq<Stylesheet>, list: Seq<usize>, path: Set<usize>, i: int)
    requires
        0 <= i < list.len(),
    ensures
        imports::expansions(files, list, path) == imports::expansions(files, list.take(i), path)
            + imports::expansion(files, list[i], path) + imports::expansions(
            files,
            list.skip(i + 1),
            path,
        ),
{
    let upto = list.take(i + 1);
    assert(list == upto + list.skip(i + 1));
    assert(upto.drop_last() == list.take(i));
    law_imports_one_behind_the_other(files, upto, list.skip(i + 1), path);
}

proof fn lemma_list_holds(
    files: Seq<Stylesheet>,
    list: Seq<usize>,
    path: Set<usize>,
    i: int,
    file: usize,
)
    requires
        0 <= i < list.len(),
        imports::expansion(files, list[i], path).contains(file),
    ensures
        imports::expansions(files, list, path).contains(file),
{
    lemma_entry_in_list(files, list, path, i);
    let before = imports::expansions(files, list.take(i), path);
    let here = imports::expansion(files, list[i], path);
    let k = choose|k: int| 0 <= k < here.len() && here[k] == file;
    assert(imports::expansions(files, list, path)[before.len() + k] == file);
}

/// While a file is being expanded, nothing expands to it.
pub proof fn law_open_files_are_left_out(files: Seq<Stylesheet>, file: usize, path: Set<usize>)
    ensures
        forall|x: usize| #[trigger]
            imports::expansion(files, file, path).contains(x) ==> !path.contains(x),
    decreases imports::outside(path), 0nat,
{
    if !path.contains(file) && imports::is_stylesheet(files, file) {
        imports::lemma_enter(path, file);
        let list = imports::imported(files, file);
        let inside = imports::expansions(files, list, path.insert(file));
        lemma_open_files_in_list(files, list, path.insert(file));
        assert forall|x: usize| #[trigger]
            imports::expansion(files, file, path).contains(x) implies !path.contains(x) by {
            let order = imports::expansion(files, file, path);
            let k = choose|k: int| 0 <= k < order.len() && order[k] == x;
            if k < inside.len() {
                assert(inside[k] == x);
                assert(inside.contains(x));
            }
        }
    }
}

proof fn lemma_open_files_in_list(files: Seq<Stylesheet>, list: Seq<usize>, path: Set<usize>)
    ensures
        forall|x: usize| #[trigger]
            imports::expansions(files, list, path).contains(x) ==> !path.contains(x),
    decreases imports::outside(path), 1 + list.len(),
{
    if list.len() > 0 {
        lemma_open_files_in_list(files, list.drop_last(), path);
        law_open_files_are_left_out(files, list.last(), path);
        let first = imports::expansions(files, list.drop_last(), path);
        let last = imports::expansion(files, list.last(), path);
        assert forall|x: usize| #[trigger]
            imports::expansions(files, list, path).contains(x) implies !path.contains(x) by {
            let k = choose|k: int| 0 <= k < (first + last).len() && (first + last)[k] == x;
            if k < first.len() {
                assert(first.contains(first[k]));
            } else {
                assert(last.contains(last[k - first.len()]));
            }
        }
    }
}

/// A file does not stand inside its own expansion: what its imports expand to
/// does not hold it.
pub proof fn law_not_inside_own_expansion(files: Seq<Stylesheet>, file: usize, path: Set<usize>)
    ensures
        !imports::expansions(
            files,
            imports::imported(files, file),
            path.insert(file),
        ).contains(file),
{
    lemma_open_files_in_list(files, imports::imported(files, file), path.insert(file));
}

/// A file expands in the same way whatever is being expanded, as long as no
/// imports lead from it to there.
pub proof fn law_expands_as_on_its_own(files: Seq<Stylesheet>, file: usize, path: Set<usize>)
    requires
        forall|x: usize| #[trigger] path.contains(x) ==> !reaches(files, file, x),
    ensures
        imports::expansion(files, file, path) == imports::reading_order(files, file),
{
    lemma_paths_agree(files, file, path, Set::empty());
}

proof fn lemma_paths_agree(files: Seq<Stylesheet>, file: usize, a: Set<usize>, b: Set<usize>)
    requires
        forall|x: usize| #[trigger] reaches(files, file, x) ==> (a.contains(x) <==> b.contains(x)),
    ensures
        imports::expansion(files, file, a) == imports::expansion(files, file, b),
    decreases imports::outside(a), 0nat,
{
    lemma_reaches_itself(files, file);
    if !a.contains(file) && imports::is_stylesheet(files, file) {
        imports::lemma_enter(a, file);
        let list = imports::imported(files, file);
        assert forall|i: int, x: usize|
            0 <= i < list.len() && #[trigger] reaches(files, list[i], x) implies (a.insert(
            file,
        ).contains(x) <==> b.insert(file).contains(x)) by {
            assert(list.contains(list[i]));
            lemma_reaches_on(files, file, list[i], x);
        }
        lemma_paths_agree_on_list(files, list, a.insert(file), b.insert(file));
    }
}

proof fn lemma_paths_agree_on_list(
    files: Seq<Stylesheet>,
    list: Seq<usize>,
    a: Set<usize>,
    b: Set<usize>,
)
    requires
        forall|i: int, x: usize|
            0 <= i < list.len() && #[trigger] reaches(files, list[i], x) ==> (a.contains(x)
                <==> b.contains(x)),
    ensures
        imports::expansions(files, list, a) == imports::expansions(files, list, b),
    decreases imports::outside(a), 1 + list.len(),
{
    if list.len() > 0 {
        let front = list.drop_last();
        assert forall|i: int, x: usize|
            0 <= i < front.len() && #[trigger] reaches(files, front[i], x) implies (a.contains(x)
            <==> b.contains(x)) by {
            assert(front[i] == list[i]);
            assert(reaches(files, list[i], x));
        }
        lemma_paths_agree_on_list(files, front, a, b);
        assert forall|x: usize| #[trigger] reaches(files, list.last(), x) implies (a.contains(x)
            <==> b.contains(x)) by {
            assert(reaches(files, list[list.len() - 1], x));
        }
        lemma_paths_agree(files, list.last(), a, b);
    }
}

/// The orders in which the files of a list are read, one behind the other.
pub open spec fn reading_orders(files: Seq<Stylesheet>, list: Seq<usize>) -> Seq<usize>
    decreases list.len(),
{
    if list.len() == 0 {
        Seq::empty()
    } else {
        reading_orders(files, list.drop_last()) + imports::reading_order(files, list.last())
    }
}

/// Each import expands in place: what a stylesheet reads is what its imports
/// expand to, one behind the other and repeats included, and then the
/// stylesheet itself. Where no imports lead back to the stylesheet, each import
/// expands to just what it reads itself.
pub proof fn law_imports_expand_in_place(files: Seq<Stylesheet>, file: usize)
    requires
        imports::is_stylesheet(files, file),
    ensures
        imports::reading_order(files, file) == imports::expansions(
            files,
            imports::imported(files, file),
            Set::empty().insert(file),
        ).push(file),
        (forall|i: int|
            0 <= i < imports::imported(files, file).len() ==> !reaches(
                files,
                #[trigger] imports::imported(files, file)[i],
                file,
            )) ==> imports::reading_order(files, file) == reading_orders(
            files,
            imports::imported(files, file),
        ).push(file),
{
    let list = imports::imported(files, file);
    if forall|i: int| 0 <= i < list.len() ==> !reaches(files, #[trigger] list[i], file) {
        lemma_expand_alone(files, list, file);
    }
}

proof fn lemma_expand_alone(files: Seq<Stylesheet>, list: Seq<usize>, file: usize)
    requires
        forall|i: int| 0 <= i < list.len() ==> !reaches(files, #[trigger] list[i], file),
    ensures
        imports::expansions(files, list, Set::empty().insert(file)) == reading_orders(files, list),
    decreases list.len(),
{
    if list.len() > 0 {
        let front = list.drop_last();
        assert forall|i: int| 0 <= i < front.len() implies !reaches(
            files,
            #[trigger] front[i],
            file,
        ) by {
            assert(front[i] == list[i]);
        }
        lemma_expand_alone(files, front, file);
        assert(!reaches(files, list[list.len() - 1], file));
        law_expands_as_on_its_own(files, list.last(), Set::empty().insert(file));
    }
}

proof fn lemma_expansion_is_reached(files: Seq<Stylesheet>, file: usize, path: Set<usize>)
    ensures
        forall|x: usize| #[trigger]
            imports::expansion(files, file, path).contains(x) ==> imports::is_stylesheet(files, x)
                && reaches(files, file, x),
    decreases imports::outside(path), 0nat,
{
    if !path.contains(file) && imports::is_stylesheet(files, file) {
        imports::lemma_enter(path, file);
        let list = imports::imported(files, file);
        let inside = imports::expansions(files, list, path.insert(file));
        let order = imports::expansion(files, file, path);
        assert forall|i: int| 0 <= i < list.len() implies reaches(
            files,
            file,
            #[trigger] list[i],
        ) by {
            assert(list.contains(list[i]));
            lemma_reaches_itself(files, file);
            lemma_reaches_import(files, file, file, list[i]);
        }
        lemma_list_is_reached(files, list, path.insert(file), file);
        assert forall|x: usize| #[trigger] order.contains(x) implies imports::is_stylesheet(
            files,
            x,
        ) && reaches(files, file, x) by {
            let k = choose|k: int| 0 <= k < order.len() && order[k] == x;
            if k < inside.len() {
                assert(inside.contains(inside[k]));
            } else {
                lemma_reaches_itself(files, file);
            }
        }
    }
}

proof fn lemma_list_is_reached(
    files: Seq<Stylesheet>,
    list: Seq<usize>,
    path: Set<usize>,
    from: usize,
)
    requires
        forall|i: int| 0 <= i < list.len() ==> reaches(files, from, #[trigger] list[i]),
    ensures
        forall|x: usize| #[trigger]
            imports::expansions(files, list, path).contains(x) ==> imports::is_stylesheet(files, x)
                && reaches(files, from, x),
    decreases imports::outside(path), 1 + list.len(),
{
    if list.len() > 0 {
        let front = list.drop_last();
        assert forall|i: int| 0 <= i < front.len() implies reaches(
            files,
            from,
            #[trigger] front[i],
        ) by {
            assert(front[i] == list[i]);
        }
        lemma_list_is_reached(files, front, path, from);
        lemma_expansion_is_reached(files, list.last(), path);
        assert(reaches(files, from, list[list.len() - 1]));
        let first = imports::expansions(files, front, path);
        let last = imports::expansion(files, list.last(), path);
        assert forall|x: usize| #[trigger]
            imports::expansions(files, list, path).contains(x) implies imports::is_stylesheet(
            files,
            x,
        ) && reaches(files, from, x) by {
            let k = choose|k: int| 0 <= k < (first + last).len() && (first + last)[k] == x;
            if k < first.len() {
                assert(first.contains(first[k]));
            } else {
                assert(last.contains(last[k - first.len()]));
                lemma_reaches_trans(files, from, list.last(), x);
            }
        }
    }
}

/// The last place of `file` in the first `n` entries of `chain`.
proof fn lemma_last_place(chain: Seq<usize>, file: usize, n: int) -> (i: int)
    requires
        0 < n <= chain.len(),
        chain[0] == file,
    ensures
        0 <= i < n,
        chain[i] == file,
        forall|j: int| i < j < n ==> chain[j] != file,
    decreases n,
{
    if chain[n - 1] == file {
        n - 1
    } else {
        lemma_last_place(chain, file, n - 1)
    }
}

/// A chain of imports that meets no open file leads to a file that is read.
proof fn lemma_chain_is_read(
    files: Seq<Stylesheet>,
    chain: Seq<usize>,
    path: Set<usize>,
)
    requires
        is_import_chain(files, chain),
        imports::is_stylesheet(files, chain.last()),
        forall|i: int| 0 <= i < chain.len() ==> !path.contains(#[trigger] chain[i]),
    ensures
        imports::expansion(files, chain[0], path).contains(chain.last()),
    decreases imports::outside(path),
{
    let file = chain[0];
    let order = imports::expansion(files, file, path);
    let list = imports::imported(files, file);
    if chain.len() > 1 {
        assert(imports::imported(files, chain[0]).contains(chain[1]));
    }
    assert(imports::is_stylesheet(files, file));
    let inside = imports::expansions(files, list, path.insert(file));
    assert(order == inside.push(file));
    let i = lemma_last_place(chain, file, chain.len() as int);
    if i == chain.len() - 1 {
        assert(order[inside.len() as int] == file);
    } else {
        let tail = chain.skip(i + 1);
        assert(imports::imported(files, chain[i]).contains(chain[i + 1]));
        let m = choose|m: int| 0 <= m < list.len() && list[m] == chain[i + 1];
        assert forall|j: int| 0 <= j < tail.len() - 1 implies imports::imported(
            files,
            #[trigger] tail[j],
        ).contains(tail[j + 1]) by {
            assert(tail[j] == chain[i + 1 + j]);
            assert(imports::imported(files, chain[i + 1 + j]).contains(chain[i + 1 + j + 1]));
        }
        assert forall|j: int| 0 <= j < tail.len() implies !path.insert(file).contains(
            #[trigger] tail[j],
        ) by {
            assert(tail[j] == chain[i + 1 + j]);
        }
        imports::lemma_enter(path, file);
        lemma_chain_is_read(files, tail, path.insert(file));
        lemma_list_holds(files, list, path.insert(file), m, chain.last());
        let k = choose|k: int| 0 <= k < inside.len() && inside[k] == chain.last();
        assert(order[k] == chain.last());
    }
}

/// The files that are read are the stylesheets to which imports lead from the
/// first one, that one included.
pub proof fn law_reads_what_is_imported(files: Seq<Stylesheet>, file: usize)
    ensures
        forall|f: usize| #[trigger]
            imports::reading_order(files, file).contains(f) <==> imports::is_stylesheet(files, f)
                && reaches(files, file, f),
{
    lemma_expansion_is_reached(files, file, Set::empty());
    assert forall|f: usize| #[trigger]
        imports::reading_order(files, file).contains(f) <==> imports::is_stylesheet(files, f)
            && reaches(files, file, f) by {
        if imports::is_stylesheet(files, f) && reaches(files, file, f) {
            let chain = choose|path: Seq<usize>| #[trigger]
                is_import_chain(files, path) && path[0] == file && path.last() == f;
            lemma_chain_is_read(files, chain, Set::empty());
        }
    }
}

/// The stylesheets that the file at place `k` imports stand before it, but
/// for those from which imports lead back to it.
spec fn is_settled(files: Seq<Stylesheet>, order: Seq<usize>, k: int) -> bool {
    forall|g: usize| #[trigger]
        imports::imported(files, order[k]).contains(g) && imports::is_stylesheet(files, g)
            ==> order.take(k).contains(g) || reaches(files, g, order[k])
}

/// A file that is settled in one part is settled in the whole.
proof fn lemma_settled_in_part(
    files: Seq<Stylesheet>,
    before: Seq<usize>,
    part: Seq<usize>,
    behind: Seq<usize>,
    k: int,
)
    requires
        0 <= k < part.len(),
        is_settled(files, part, k),
    ensures
        is_settled(files, before + part + behind, before.len() + k),
{
    let whole = before + part + behind;
    let at = before.len() + k;
    assert(whole[at] == part[k]);
    assert forall|g: usize| #[trigger]
        imports::imported(files, whole[at]).contains(g) && imports::is_stylesheet(
            files,
            g,
        ) implies whole.take(at).contains(g) || reaches(files, g, whole[at]) by {
        assert(imports::imported(files, part[k]).contains(g));
        if part.take(k).contains(g) {
            let j = choose|j: int| 0 <= j < k && part.take(k)[j] == g;
            assert(whole.take(at)[before.len() + j] == g);
        }
    }
}

proof fn lemma_settled(files: Seq<Stylesheet>, file: usize, path: Set<usize>)
    requires
        forall|x: usize| #[trigger] path.contains(x) ==> reaches(files, x, file),
    ensures
        forall|k: int|
            0 <= k < imports::expansion(files, file, path).len() ==> #[trigger] is_settled(
                files,
                imports::expansion(files, file, path),
                k,
            ),
    decreases imports::outside(path), 0nat,
{
    if !path.contains(file) && imports::is_stylesheet(files, file) {
        imports::lemma_enter(path, file);
        let list = imports::imported(files, file);
        let longer = path.insert(file);
        let inside = imports::expansions(files, list, longer);
        let order = imports::expansion(files, file, path);
        lemma_reaches_itself(files, file);
        assert forall|x: usize, i: int|
            #![trigger longer.contains(x), list[i]]
            longer.contains(x) && 0 <= i < list.len() implies reaches(files, x, list[i]) by {
            assert(list.contains(list[i]));
            assert(x == file || path.contains(x));
            lemma_reaches_import(files, x, file, list[i]);
        }
        lemma_list_settled(files, list, longer);
        assert forall|k: int| 0 <= k < order.len() implies #[trigger] is_settled(
            files,
            order,
            k,
        ) by {
            if k < inside.len() {
                assert(is_settled(files, inside, k));
                assert(order == Seq::<usize>::empty() + inside + seq![file]);
                lemma_settled_in_part(files, Seq::empty(), inside, seq![file], k);
            } else {
                assert(order.take(k) == inside);
                assert forall|g: usize| #[trigger]
                    imports::imported(files, order[k]).contains(g) && imports::is_stylesheet(
                        files,
                        g,
                    ) implies order.take(k).contains(g) || reaches(files, g, order[k]) by {
                    let i = choose|i: int| 0 <= i < list.len() && list[i] == g;
                    if !longer.contains(g) {
                        let part = imports::expansion(files, g, longer);
                        assert(part.last() == g);
                        assert(part[part.len() - 1] == g);
                        lemma_list_holds(files, list, longer, i, g);
                    } else {
                        assert(g == file || path.contains(g));
                    }
                }
            }
        }
    }
}

proof fn lemma_list_settled(files: Seq<Stylesheet>, list: Seq<usize>, path: Set<usize>)
    requires
        forall|x: usize, i: int|
            #![trigger path.contains(x), list[i]]
            path.contains(x) && 0 <= i < list.len() ==> reaches(files, x, list[i]),
    ensures
        forall|k: int|
            0 <= k < imports::expansions(files, list, path).len() ==> #[trigger] is_settled(
                files,
                imports::expansions(files, list, path),
                k,
            ),
    decreases imports::outside(path), 1 + list.len(),
{
    if list.len() > 0 {
        let front = list.drop_last();
        assert forall|x: usize, i: int|
            #![trigger path.contains(x), front[i]]
            path.contains(x) && 0 <= i < front.len() implies reaches(files, x, front[i]) by {
            assert(front[i] == list[i]);
        }
        lemma_list_settled(files, front, path);
        assert forall|x: usize| #[trigger] path.contains(x) implies reaches(
            files,
            x,
            list.last(),
        ) by {
            assert(reaches(files, x, list[list.len() - 1]));
        }
        lemma_settled(files, list.last(), path);
        let first = imports::expansions(files, front, path);
        let last = imports::expansion(files, list.last(), path);
        let order = imports::expansions(files, list, path);
        let none = Seq::<usize>::empty();
        assert forall|k: int| 0 <= k < order.len() implies #[trigger] is_settled(
            files,
            order,
            k,
        ) by {
            if k < first.len() {
                assert(is_settled(files, first, k));
                assert(order == none + first + last);
                lemma_settled_in_part(files, none, first, last, k);
            } else {
                assert(is_settled(files, last, k - first.len()));
                assert(order == first + last + none);
                lemma_settled_in_part(files, first, last, none, k - first.len());
            }
        }
    }
}

/// An imported stylesheet's directives land before the importing file's own,
/// wherever that one stands, unless imports lead from it back to the importing
/// file.
pub proof fn law_imports_come_first(files: Seq<Stylesheet>, file: usize, k: int, import: usize)
    requires
        0 <= k < imports::reading_order(files, file).len(),
        imports::imported(files, imports::reading_order(files, file)[k]).contains(import),
        imports::is_stylesheet(files, import),
        !reaches(files, import, imports::reading_order(files, file)[k]),
    ensures
        exists|j: int| 0 <= j < k && imports::reading_order(files, file)[j] == import,
{
    let order = imports::reading_order(files, file);
    lemma_settled(files, file, Set::empty());
    assert(is_settled(files, order, k));
    assert(order.take(k).contains(import));
    let j = choose|j: int| 0 <= j < k && order.take(k)[j] == import;
    assert(order[j] == import);
}

/// A stylesheet's own directives come last, and nowhere else.
pub proof fn law_own_directives_last(files: Seq<Stylesheet>, file: usize)
    requires
        imports::is_stylesheet(files, file),
    ensures
        imports::reading_order(files, file).len() > 0,
        imports::reading_order(files, file).last() == file,
        !imports::reading_order(files, file).drop_last().contains(file),
{
    let inside = imports::expansions(
        files,
        imports::imported(files, file),
        Set::empty().insert(file),
    );
    law_not_inside_own_expansion(files, file, Set::empty());
    assert(inside.push(file).drop_last() == inside);
}

/// Wherever a stylesheet is expanded, each stylesheet that it imports stands
/// before its own directives, but for the ones that are being expanded.
pub proof fn law_imports_stand_in_the_expansion(
    files: Seq<Stylesheet>,
    file: usize,
    path: Set<usize>,
    import: usize,
)
    requires
        !path.contains(file),
        imports::imported(files, file).contains(import),
        imports::is_stylesheet(files, import),
        !path.insert(file).contains(import),
    ensures
        imports::expansion(files, file, path).len() > 0,
        imports::expansion(files, file, path).last() == file,
        imports::expansion(files, file, path).drop_last().contains(import),
{
    let list = imports::imported(files, file);
    let longer = path.insert(file);
    let inside = imports::expansions(files, list, longer);
    assert(imports::expansion(files, file, path) == inside.push(file));
    assert(inside.push(file).drop_last() == inside);
    let i = choose|i: int| 0 <= i < list.len() && list[i] == import;
    let part = imports::expansion(files, import, longer);
    assert(part[part.len() - 1] == import);
    lemma_list_holds(files, list, longer, i, import);
}

/// Everything that a stylesheet imports stands before its own directives,
/// whether or not imports lead back to it.
pub proof fn law_own_imports_come_first(files: Seq<Stylesheet>, file: usize, import: usize)
    requires
        imports::imported(files, file).contains(import),
        imports::is_stylesheet(files, import),
        import != file,
    ensures
        imports::reading_order(files, file).drop_last().contains(import),
{
    law_imports_stand_in_the_expansion(files, file, Set::empty(), import);
}

/// The `tailwindcss` package is the preset: an import that names it brings in
/// nothing, wherever it stands.
pub proof fn law_package_imports_skipped(
    before: Seq<CssImport>,
    import: CssImport,
    behind: Seq<CssImport>,
)
    requires
        stylesheet::names_tailwind_package(import.specifier@),
    ensures
        imports::targets(before.push(import) + behind) == imports::targets(before + behind),
    decreases behind.len(),
{
    if behind.len() == 0 {
        assert(before.push(import) + behind == before.push(import));
        assert(before.push(import).drop_last() == before);
        assert(before + behind == before);
    } else {
        law_package_imports_skipped(before, import, behind.drop_last());
        assert((before.push(import) + behind).drop_last() == before.push(import)
            + behind.drop_last());
        assert((before + behind).drop_last() == before + behind.drop_last());
    }
}

/// Whether a specifier is `tailwindcss` or begins with `tailwindcss/`.
pub open spec fn is_package(specifier: Seq<char>) -> bool {
    specifier == "tailwindcss"@ || exists|rest: Seq<char>| #[trigger]
        ("tailwindcss/"@ + rest) == specifier
}

/// Just these specifiers name the package.
pub proof fn law_package_names(specifier: Seq<char>)
    ensures
        stylesheet::names_tailwind_package(specifier) <==> is_package(specifier),
{
    let start = "tailwindcss/"@;
    if start.is_prefix_of(specifier) {
        let rest = specifier.skip(start.len() as int);
        assert(start + rest == specifier);
    }
    if exists|rest: Seq<char>| #[trigger] (start + rest) == specifier {
        let rest = choose|rest: Seq<char>| #[trigger] (start + rest) == specifier;
        assert((start + rest).subrange(0, start.len() as int) == start);
    }
}

/// The imports of two lists bring in their files one behind the other.
pub proof fn law_targets_join(first: Seq<CssImport>, second: Seq<CssImport>)
    ensures
        imports::targets(first + second) == imports::targets(first) + imports::targets(second),
        imports::targets(Seq::empty()).len() == 0,
    decreases second.len(),
{
    if second.len() == 0 {
        assert(first + second == first);
        assert(imports::targets(second) == Seq::<usize>::empty());
    } else {
        law_targets_join(first, second.drop_last());
        assert((first + second).drop_last() == first + second.drop_last());
        assert(imports::targets(first + second) == imports::targets(first) + imports::targets(
            second,
        ));
    }
}

/// An import that is resolved and does not name the package brings in its file
/// in its place, however else it is written.
pub proof fn law_import_is_followed(
    before: Seq<CssImport>,
    import: CssImport,
    behind: Seq<CssImport>,
    file: usize,
)
    requires
        import.resolved == Some(file),
        !is_package(import.specifier@),
    ensures
        imports::targets(before.push(import) + behind) == imports::targets(before).push(file)
            + imports::targets(behind),
{
    law_package_names(import.specifier@);
    law_targets_join(before.push(import), behind);
    assert(before.push(import).drop_last() == before);
}

/// An import that is not resolved, or that names the package, brings in
/// nothing.
pub proof fn law_import_is_not_followed(
    before: Seq<CssImport>,
    import: CssImport,
    behind: Seq<CssImport>,
)
    requires
        import.resolved is None || is_package(import.specifier@),
    ensures
        imports::targets(before.push(import) + behind) == imports::targets(before)
            + imports::targets(behind),
{
    law_package_names(import.specifier@);
    law_targets_join(before.push(import), behind);
    assert(before.push(import).drop_last() == before);
}

/// A stylesheet imports what its imports bring in; a file that is none, or
/// that is not there, imports nothing.
pub proof fn law_imports_of_a_file(files: Seq<Stylesheet>, file: usize, info: CssModuleInfo)
    ensures
        file < files.len() && files[file as int].css == Some(info) ==> imports::is_stylesheet(
            files,
            file,
        ) && imports::imported(files, file) == imports::targets(info.imports@),
        file >= files.len() || files[file as int].css is None ==> !imports::is_stylesheet(
            files,
            file,
        ) && imports::imported(files, file).len() == 0,
{
}

/// A file that is being expanded, and one that is no stylesheet, expands to
/// nothing; a stylesheet expands to what its imports expand to while it is
/// being expanded, and then itself.
pub proof fn law_expansion_of_one(
    files: Seq<Stylesheet>,
    file: usize,
    path: Set<usize>,
    info: CssModuleInfo,
)
    ensures
        path.contains(file) || file >= files.len() || files[file as int].css is None
            ==> imports::expansions(files, seq![file], path).len() == 0,
        !path.contains(file) && file < files.len() && files[file as int].css == Some(info)
            ==> imports::expansions(files, seq![file], path) == imports::expansions(
            files,
            imports::targets(info.imports@),
            path.insert(file),
        ).push(file),
        imports::expansions(files, Seq::empty(), path).len() == 0,
        imports::reading_order(files, file) == imports::expansions(
            files,
            seq![file],
            Set::empty(),
        ),
{
    let one = seq![file];
    assert(one.drop_last() == Seq::<usize>::empty());
    assert(one.last() == file);
    assert(imports::expansions(files, one.drop_last(), path) == Seq::<usize>::empty());
    assert(imports::expansions(files, one, path) == imports::expansion(files, file, path));
    let none = Set::<usize>::empty();
    assert(imports::expansions(files, one.drop_last(), none) == Seq::<usize>::empty());
    assert(imports::expansions(files, one, none) == imports::expansion(files, file, none));
}

/// Every import of a stylesheet that is resolved to another stylesheet and does
/// not name the package is read before the stylesheet itself.
pub proof fn law_import_is_read(
    files: Seq<Stylesheet>,
    file: usize,
    info: CssModuleInfo,
    i: int,
    import: usize,
)
    requires
        file < files.len(),
        files[file as int].css == Some(info),
        0 <= i < info.imports@.len(),
        info.imports@[i].resolved == Some(import),
        !is_package(info.imports@[i].specifier@),
        import < files.len(),
        files[import as int].css is Some,
        import != file,
    ensures
        imports::reading_order(files, file).len() > 0,
        imports::reading_order(files, file).last() == file,
        imports::reading_order(files, file).drop_last().contains(import),
{
    let list = info.imports@;
    let before = list.take(i);
    let behind = list.skip(i + 1);
    assert(list == before.push(list[i]) + behind);
    law_import_is_followed(before, list[i], behind, import);
    let found = imports::targets(list);
    assert(found[imports::targets(before).len() as int] == import);
    assert(imports::imported(files, file).contains(import));
    law_own_directives_last(files, file);
    law_own_imports_come_first(files, file, import);
}

} // verus!
