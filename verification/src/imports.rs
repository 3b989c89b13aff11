//! The order in which a stylesheet and its imports are read.

use crate::stylesheet;
use crate::stylesheet::{CssImport, Stylesheet, StylesheetIndex};
use rustc_hash::{FxBuildHasher, FxHashSet};
use vstd::prelude::*;

verus! {

/// `rustc_hash::FxBuildHasher`, with which an `FxHashSet` hashes. Nothing is
/// claimed of it.
#[verifier::external_type_specification]
#[verifier::external_body]
pub struct ExFxBuildHasher(FxBuildHasher);

/// `HashSet::insert` on an `rustc_hash::FxHashSet` of numbers: the set gains
/// `file`, and the result says whether it was not there before. The Fx hasher
/// hashes equal numbers alike, so that a number is found again.
#[verifier::external_body]
fn insert_file(open: &mut FxHashSet<usize>, file: usize) -> (new: bool)
    ensures
        final(open)@ == old(open)@.insert(file),
        new == !old(open)@.contains(file),
{
    open.insert(file)
}

/// `HashSet::remove` on an `rustc_hash::FxHashSet` of numbers: the set loses
/// `file`, and the result says whether it was there before. The Fx hasher
/// hashes equal numbers alike, so that a number is found again.
#[verifier::external_body]
fn remove_file(open: &mut FxHashSet<usize>, file: usize) -> (found: bool)
    ensures
        final(open)@ == old(open)@.remove(file),
        found == old(open)@.contains(file),
{
    open.remove(&file)
}

/// Whether a file is a stylesheet.
pub open spec fn is_stylesheet(files: Seq<Stylesheet>, file: usize) -> bool {
    file < files.len() && files[file as int].css is Some
}

/// The files that `imports` bring in, in their order: those that are resolved
/// and do not stand for the `tailwindcss` package.
pub open spec fn targets(imports: Seq<CssImport>) -> Seq<usize>
    decreases imports.len(),
{
    if imports.len() == 0 {
        Seq::empty()
    } else {
        let before = targets(imports.drop_last());
        match imports.last().resolved {
            Some(file) if !stylesheet::names_tailwind_package(
                imports.last().specifier@,
            ) => before.push(file),
            _ => before,
        }
    }
}

/// The files that a file imports, in document order.
pub open spec fn imported(files: Seq<Stylesheet>, file: usize) -> Seq<usize> {
    if is_stylesheet(files, file) {
        targets(files[file as int].css->0.imports@)
    } else {
        Seq::empty()
    }
}

/// How many numbers under `n` are not in `path`.
pub open spec fn outside_under(path: Set<usize>, n: int) -> nat
    decreases n,
{
    if n <= 0 {
        0
    } else if path.contains((n - 1) as usize) {
        outside_under(path, n - 1)
    } else {
        outside_under(path, n - 1) + 1
    }
}

/// How many numbers are not in `path`.
pub open spec fn outside(path: Set<usize>) -> nat {
    outside_under(path, usize::MAX + 1)
}

/// A longer path leaves fewer numbers outside it.
pub proof fn lemma_enter(path: Set<usize>, file: usize)
    requires
        !path.contains(file),
    ensures
        outside(path.insert(file)) < outside(path),
{
    lemma_enter_under(path, file, usize::MAX + 1);
}

proof fn lemma_enter_under(path: Set<usize>, file: usize, n: int)
    requires
        0 <= n <= usize::MAX + 1,
        !path.contains(file),
    ensures
        file < n ==> outside_under(path.insert(file), n) == outside_under(path, n) - 1,
        file >= n ==> outside_under(path.insert(file), n) == outside_under(path, n),
    decreases n,
{
    if n > 0 {
        lemma_enter_under(path, file, n - 1);
    }
}

/// What a file expands to while the files of `path` are being expanded: the
/// expansion of each of its imports in place, and then the file itself. A file
/// that is being expanded is left out, and so is one that is no stylesheet.
pub open spec fn expansion(files: Seq<Stylesheet>, file: usize, path: Set<usize>) -> Seq<usize>
    decreases outside(path), 0nat,
{
    if path.contains(file) || !is_stylesheet(files, file) {
        Seq::empty()
    } else {
        proof {
            lemma_enter(path, file);
        }
        expansions(files, imported(files, file), path.insert(file)).push(file)
    }
}

/// What a list of files expands to, one behind the other.
pub open spec fn expansions(
    files: Seq<Stylesheet>,
    list: Seq<usize>,
    path: Set<usize>,
) -> Seq<usize>
    decreases outside(path), 1 + list.len(),
{
    if list.len() == 0 {
        Seq::empty()
    } else {
        expansions(files, list.drop_last(), path) + expansion(files, list.last(), path)
    }
}

/// The files that contribute to the registry of a stylesheet, in the order in
/// which they do.
pub open spec fn reading_order(files: Seq<Stylesheet>, file: usize) -> Seq<usize> {
    expansion(files, file, Set::empty())
}

/// What is left to do with a file.
enum Frame {
    /// Expand it.
    Enter(usize),
    /// Read it, once its imports are expanded.
    Extract(usize),
}

/// How many steps the expansion of a file takes once it is entered.
spec fn steps(files: Seq<Stylesheet>, file: usize, path: Set<usize>) -> nat
    decreases outside(path), 0nat,
{
    if path.contains(file) || !is_stylesheet(files, file) {
        0
    } else {
        proof {
            lemma_enter(path, file);
        }
        list_steps(files, imported(files, file), path.insert(file)) + 1
    }
}

/// How many steps the expansion of a list of files takes.
spec fn list_steps(files: Seq<Stylesheet>, list: Seq<usize>, path: Set<usize>) -> nat
    decreases outside(path), 1 + list.len(),
{
    if list.len() == 0 {
        0
    } else {
        list_steps(files, list.drop_last(), path) + steps(files, list.last(), path) + 1
    }
}

/// How many steps it takes until all of `frames` is done.
spec fn frame_steps(files: Seq<Stylesheet>, frames: Seq<Frame>, path: Set<usize>) -> nat
    decreases frames.len(),
{
    if frames.len() == 0 {
        0
    } else {
        let rest = frames.drop_last();
        match frames.last() {
            Frame::Enter(file) => frame_steps(files, rest, path) + steps(files, file, path) + 1,
            Frame::Extract(file) => frame_steps(files, rest, path.remove(file)) + 1,
        }
    }
}

/// The files read once all of `frames` is done, the last one first, where
/// `order` has been read and the files of `path` are being expanded.
spec fn finish(
    files: Seq<Stylesheet>,
    frames: Seq<Frame>,
    path: Set<usize>,
    order: Seq<usize>,
) -> Seq<usize>
    decreases frames.len(),
{
    if frames.len() == 0 {
        order
    } else {
        let rest = frames.drop_last();
        match frames.last() {
            Frame::Enter(file) => finish(files, rest, path, order + expansion(files, file, path)),
            Frame::Extract(file) => finish(files, rest, path.remove(file), order.push(file)),
        }
    }
}

/// The frames that enter the files of `list`, the first one on top.
spec fn enter_all(list: Seq<usize>) -> Seq<Frame>
    decreases list.len(),
{
    if list.len() == 0 {
        Seq::empty()
    } else {
        seq![Frame::Enter(list.last())] + enter_all(list.drop_last())
    }
}

proof fn lemma_enter_all(
    files: Seq<Stylesheet>,
    base: Seq<Frame>,
    list: Seq<usize>,
    path: Set<usize>,
    order: Seq<usize>,
)
    ensures
        finish(files, base + enter_all(list), path, order) == finish(
            files,
            base,
            path,
            order + expansions(files, list, path),
        ),
        frame_steps(files, base + enter_all(list), path) == frame_steps(files, base, path)
            + list_steps(files, list, path),
    decreases list.len(),
{
    if list.len() == 0 {
        assert(base + enter_all(list) == base);
        assert(order + expansions(files, list, path) == order);
    } else {
        let front = list.drop_last();
        let base1 = base.push(Frame::Enter(list.last()));
        assert(base + enter_all(list) == base1 + enter_all(front));
        lemma_enter_all(files, base1, front, path, order);
        assert(base1.drop_last() == base);
        assert(order + expansions(files, front, path) + expansion(files, list.last(), path)
            == order + expansions(files, list, path));
    }
}

/// The files that contribute to the registry of a stylesheet, in the order in
/// which they do.
///
/// Depth-first, imports before the importing file: `Enter` queues a file's
/// imports (first import on top) with the file's own `Extract` beneath them,
/// so a file is read after everything it imports. A file is open from its
/// `Enter` to its `Extract`; an import of an open file is left out, so that
/// files that import each other come to an end.
pub fn import_order(index: &StylesheetIndex, file: usize) -> (order: Vec<usize>)
    ensures
        order@ == reading_order(index.files@, file),
{
    let mut order: Vec<usize> = Vec::new();
    let mut open: FxHashSet<usize> = FxHashSet::default();
    let mut stack: Vec<Frame> = Vec::new();
    stack.push(Frame::Enter(file));
    let ghost files = index.files@;
    proof {
        assert(open@ == Set::<usize>::empty());
        assert(stack@.drop_last() == Seq::<Frame>::empty());
        assert(order@ + expansion(files, file, open@) == reading_order(files, file));
        assert(finish(files, stack@, open@, order@) == finish(
            files,
            stack@.drop_last(),
            open@,
            order@ + expansion(files, file, open@),
        ));
    }
    while stack.len() > 0
        invariant
            files == index.files@,
            finish(files, stack@, open@, order@) == reading_order(files, file),
        decreases frame_steps(files, stack@, open@),
    {
        let ghost before = open@;
        let ghost rest = stack@.drop_last();
        match stack.pop() {
            Some(Frame::Enter(entered)) => {
                let mut imports: Option<&Vec<CssImport>> = None;
                if entered < index.files.len() {
                    if let Some(css) = &index.files[entered].css {
                        if insert_file(&mut open, entered) {
                            imports = Some(&css.imports);
                        }
                    }
                }
                match imports {
                    Some(imports) => {
                        stack.push(Frame::Extract(entered));
                        push_imports(imports, &mut stack);
                        proof {
                            let base = rest.push(Frame::Extract(entered));
                            let list = imported(files, entered);
                            lemma_enter_all(files, base, list, open@, order@);
                            assert(base.drop_last() == rest);
                            assert(open@.remove(entered) == before);
                            assert((order@ + expansions(files, list, open@)).push(entered)
                                == order@ + expansion(files, entered, before));
                        }
                    },
                    None => {
                        assert(open@ == before);
                        assert(order@ + expansion(files, entered, before) == order@);
                    },
                }
            },
            Some(Frame::Extract(read)) => {
                order.push(read);
                remove_file(&mut open, read);
            },
            None => {},
        }
    }
    order
}

fn push_imports(imports: &Vec<CssImport>, stack: &mut Vec<Frame>)
    ensures
        final(stack)@ == old(stack)@ + enter_all(targets(imports@)),
{
    let mut i: usize = imports.len();
    assert(imports@.take(i as int) == imports@);
    while i > 0
        invariant
            i <= imports@.len(),
            stack@ + enter_all(targets(imports@.take(i as int))) == old(stack)@ + enter_all(
                targets(imports@),
            ),
        decreases i,
    {
        i -= 1;
        let import = &imports[i];
        proof {
            let upto = imports@.take(i + 1);
            assert(upto.drop_last() == imports@.take(i as int));
            assert(upto.last() == *import);
            let before = targets(imports@.take(i as int));
            if let Some(target) = import.resolved {
                assert(before.push(target).drop_last() == before);
            }
        }
        if stylesheet::is_tailwind_package(import.specifier.as_str()) {
            continue;
        }
        if let Some(target) = import.resolved {
            let ghost top = stack@;
            stack.push(Frame::Enter(target));
            proof {
                let before = targets(imports@.take(i as int));
                assert(stack@ + enter_all(before) == top + (seq![Frame::Enter(target)] + enter_all(
                    before,
                )));
            }
        }
    }
    assert(stack@ + enter_all(targets(imports@.take(0))) == stack@);
}

} // verus!
