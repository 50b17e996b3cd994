//! What holds of every walk, whatever the filesystem answers.

use vstd::prelude::*;

use forensicnomicon_core::FileId;

use crate::error::{VfsError, VfsResult};
use crate::fs::{DirEntry, DirStream, FsMeta, NodeKind};
use crate::walk::{
    add_entry, is_dot, lists, lists_dir, start, walk_may_give, walks, Answers, Found, Frame,
    Progress, WALK_MAX_DEPTH,
};

verus! {

broadcast use vstd::seq::group_seq_axioms;

/// No component of the path is `.` or `..`.
pub open spec fn dotless(path: Seq<Seq<u8>>) -> bool {
    forall|k: int| 0 <= k < path.len() ==> !is_dot(#[trigger] path[k])
}

/// The first `n` nodes hold a directory of that path.
pub open spec fn holds_dir(found: Seq<Found>, n: int, path: Seq<Seq<u8>>) -> bool {
    exists|j: int|
        0 <= j < n && (#[trigger] found[j]).path == path && found[j].meta.kind == NodeKind::Dir
}

/// The nodes hold one of that path and id.
pub open spec fn holds_node(found: Seq<Found>, path: Seq<Seq<u8>>, id: FileId) -> bool {
    exists|j: int| 0 <= j < found.len() && (#[trigger] found[j]).path == path && found[j].id == id
}

/// Every item is an entry, and each that is neither `.` nor `..` is among the nodes,
/// under the directory `path`.
pub open spec fn all_held(
    items: Seq<VfsResult<DirEntry>>,
    path: Seq<Seq<u8>>,
    found: Seq<Found>,
) -> bool {
    forall|k: int|
        0 <= k < items.len() ==> {
            &&& (#[trigger] items[k]) is Ok
            &&& is_dot(items[k]->Ok_0.name@) || holds_node(
                found,
                path.push(items[k]->Ok_0.name@),
                items[k]->Ok_0.id,
            )
        }
}

/// The directory was listed to its end as the one of that path: all its entries are
/// among the nodes.
pub open spec fn listed_as(
    fs: Answers,
    id: FileId,
    path: Seq<Seq<u8>>,
    found: Seq<Found>,
) -> bool {
    exists|opened: VfsResult<DirStream>, items: Seq<VfsResult<DirEntry>>|
        {
            &&& #[trigger] (fs.read_dir)(id, opened)
            &&& opened is Ok
            &&& #[trigger] opened->Ok_0.may_yield(items, true)
            &&& all_held(items, path, found)
        }
}

/// The directory was listed to its end.
pub open spec fn listed(fs: Answers, id: FileId, found: Seq<Found>) -> bool {
    exists|path: Seq<Seq<u8>>| listed_as(fs, id, path, found)
}

/// What a walk keeps of one node: its place among the others.
spec fn well_found(fs: Answers, found: Seq<Found>, i: int) -> bool {
    &&& dotless(found[i].path)
    &&& 1 <= found[i].path.len() <= WALK_MAX_DEPTH + 1
    &&& (fs.meta)(found[i].id, Ok(found[i].meta))
    &&& found[i].path.len() > 1 ==> holds_dir(found, i, found[i].path.drop_last())
}

/// What a walk keeps of one directory still to be listed.
spec fn well_framed(found: Seq<Found>, f: Frame) -> bool {
    &&& f.depth == f.path.len()
    &&& dotless(f.path)
    &&& f.path.len() > 0 ==> holds_dir(found, found.len() as int, f.path)
}

/// The directory is still to be listed.
spec fn awaits(stack: Seq<Frame>, id: FileId) -> bool {
    exists|k: int|
        0 <= k < stack.len() && (#[trigger] stack[k]).id == id && stack[k].depth <= WALK_MAX_DEPTH
}

/// What holds between two steps of a walk.
spec fn inv(fs: Answers, root: FileId, visited: Seq<FileId>, p: Progress) -> bool {
    &&& forall|i: int| 0 <= i < p.found.len() ==> #[trigger] well_found(fs, p.found, i)
    &&& forall|k: int| 0 <= k < p.stack.len() ==> well_framed(p.found, #[trigger] p.stack[k])
    &&& forall|i: int|
        0 <= i < p.found.len() && (#[trigger] p.found[i]).meta.kind == NodeKind::Dir
            && p.found[i].path.len() <= WALK_MAX_DEPTH ==> visited.contains(p.found[i].id)
            || awaits(p.stack, p.found[i].id)
    &&& forall|k: int| 0 <= k < visited.len() ==> listed(fs, #[trigger] visited[k], p.found)
    &&& visited.contains(root) || awaits(p.stack, root)
}

/// `longer` begins with `shorter`.
spec fn begins<A>(longer: Seq<A>, shorter: Seq<A>) -> bool {
    shorter.len() <= longer.len() && longer.take(shorter.len() as int) == shorter
}

proof fn lemma_begins<A>(longer: Seq<A>, shorter: Seq<A>)
    requires
        begins(longer, shorter),
    ensures
        shorter.len() <= longer.len(),
        forall|i: int| 0 <= i < shorter.len() ==> longer[i] == shorter[i],
{
    assert forall|i: int| 0 <= i < shorter.len() implies longer[i] == shorter[i] by {
        assert(longer.take(shorter.len() as int)[i] == longer[i]);
    }
}

proof fn lemma_begins_from<A>(longer: Seq<A>, shorter: Seq<A>)
    requires
        shorter.len() <= longer.len(),
        forall|i: int| 0 <= i < shorter.len() ==> longer[i] == shorter[i],
    ensures
        begins(longer, shorter),
{
    assert(longer.take(shorter.len() as int) =~= shorter);
}

proof fn lemma_held_in_longer(
    shorter: Seq<Found>,
    longer: Seq<Found>,
    path: Seq<Seq<u8>>,
    id: FileId,
)
    requires
        begins(longer, shorter),
        holds_node(shorter, path, id),
    ensures
        holds_node(longer, path, id),
{
    lemma_begins(longer, shorter);
    let j = choose|j: int|
        0 <= j < shorter.len() && (#[trigger] shorter[j]).path == path && shorter[j].id == id;
    assert(longer[j].path == path);
}

proof fn lemma_dir_in_longer(
    shorter: Seq<Found>,
    longer: Seq<Found>,
    n: int,
    m: int,
    path: Seq<Seq<u8>>,
)
    requires
        begins(longer, shorter),
        0 <= n <= shorter.len(),
        n <= m,
        holds_dir(shorter, n, path),
    ensures
        holds_dir(longer, m, path),
{
    lemma_begins(longer, shorter);
    let j = choose|j: int|
        0 <= j < n && (#[trigger] shorter[j]).path == path && shorter[j].meta.kind
            == NodeKind::Dir;
    assert(longer[j].path == path);
}

proof fn lemma_listed_in_longer(fs: Answers, shorter: Seq<Found>, longer: Seq<Found>, id: FileId)
    requires
        begins(longer, shorter),
        listed(fs, id, shorter),
    ensures
        listed(fs, id, longer),
{
    let path = choose|path: Seq<Seq<u8>>| listed_as(fs, id, path, shorter);
    let (opened, items) = choose|opened: VfsResult<DirStream>, items: Seq<VfsResult<DirEntry>>|
        {
            &&& #[trigger] (fs.read_dir)(id, opened)
            &&& opened is Ok
            &&& #[trigger] opened->Ok_0.may_yield(items, true)
            &&& all_held(items, path, shorter)
        };
    assert forall|k: int| 0 <= k < items.len() implies {
        &&& (#[trigger] items[k]) is Ok
        &&& is_dot(items[k]->Ok_0.name@) || holds_node(
            longer,
            path.push(items[k]->Ok_0.name@),
            items[k]->Ok_0.id,
        )
    } by {
        let entry = items[k]->Ok_0;
        if !is_dot(entry.name@) {
            lemma_held_in_longer(shorter, longer, path.push(entry.name@), entry.id);
        }
    }
    assert(listed_as(fs, id, path, longer));
}

/// What listing a directory keeps, and what it adds.
spec fn adds(fs: Answers, dir: Frame, p: Progress, q: Progress) -> bool {
    &&& begins(q.found, p.found)
    &&& begins(q.stack, p.stack)
    &&& forall|i: int|
        p.found.len() <= i < q.found.len() ==> {
            &&& (#[trigger] q.found[i]).path.len() == dir.path.len() + 1
            &&& q.found[i].path.drop_last() == dir.path
            &&& !is_dot(q.found[i].path.last())
            &&& (fs.meta)(q.found[i].id, Ok(q.found[i].meta))
            &&& q.found[i].meta.kind == NodeKind::Dir ==> exists|k: int|
                0 <= k < q.stack.len() && (#[trigger] q.stack[k]).id == q.found[i].id
                    && q.stack[k].depth == dir.depth + 1
        }
    &&& forall|k: int|
        p.stack.len() <= k < q.stack.len() ==> {
            &&& (#[trigger] q.stack[k]).depth == dir.depth + 1
            &&& q.stack[k].path.len() == dir.path.len() + 1
            &&& q.stack[k].path.drop_last() == dir.path
            &&& !is_dot(q.stack[k].path.last())
            &&& holds_dir(q.found, q.found.len() as int, q.stack[k].path)
        }
}

proof fn lemma_adds_one(fs: Answers, dir: Frame, p: Progress, entry: DirEntry, meta: FsMeta)
    requires
        !is_dot(entry.name@),
        (fs.meta)(entry.id, Ok(meta)),
    ensures
        adds(fs, dir, p, add_entry(p, dir, entry, meta)),
        holds_node(
            add_entry(p, dir, entry, meta).found,
            dir.path.push(entry.name@),
            entry.id,
        ),
{
    let q = add_entry(p, dir, entry, meta);
    let path = dir.path.push(entry.name@);
    assert(path.drop_last() =~= dir.path);
    lemma_begins_from(q.found, p.found);
    lemma_begins_from(q.stack, p.stack);
    let last = p.found.len() as int;
    assert(q.found[last].path == path);
    if meta.kind == NodeKind::Dir {
        assert(q.stack[p.stack.len() as int].path == path);
    }
}

proof fn lemma_adds_chain(fs: Answers, dir: Frame, p: Progress, q: Progress, s: Progress)
    requires
        adds(fs, dir, p, q),
        adds(fs, dir, q, s),
    ensures
        adds(fs, dir, p, s),
{
    lemma_begins(q.found, p.found);
    lemma_begins(s.found, q.found);
    lemma_begins(q.stack, p.stack);
    lemma_begins(s.stack, q.stack);
    lemma_begins_from(s.found, p.found);
    lemma_begins_from(s.stack, p.stack);
    assert forall|i: int| p.found.len() <= i < s.found.len() implies {
        &&& (#[trigger] s.found[i]).path.len() == dir.path.len() + 1
        &&& s.found[i].path.drop_last() == dir.path
        &&& !is_dot(s.found[i].path.last())
        &&& (fs.meta)(s.found[i].id, Ok(s.found[i].meta))
        &&& s.found[i].meta.kind == NodeKind::Dir ==> exists|k: int|
            0 <= k < s.stack.len() && (#[trigger] s.stack[k]).id == s.found[i].id
                && s.stack[k].depth == dir.depth + 1
    } by {
        if i < q.found.len() {
            assert(s.found[i] == q.found[i]);
            if q.found[i].meta.kind == NodeKind::Dir {
                let k = choose|k: int|
                    0 <= k < q.stack.len() && (#[trigger] q.stack[k]).id == q.found[i].id
                        && q.stack[k].depth == dir.depth + 1;
                assert(s.stack[k] == q.stack[k]);
            }
        }
    }
    assert forall|k: int| p.stack.len() <= k < s.stack.len() implies {
        &&& (#[trigger] s.stack[k]).depth == dir.depth + 1
        &&& s.stack[k].path.len() == dir.path.len() + 1
        &&& s.stack[k].path.drop_last() == dir.path
        &&& !is_dot(s.stack[k].path.last())
        &&& holds_dir(s.found, s.found.len() as int, s.stack[k].path)
    } by {
        if k < q.stack.len() {
            assert(s.stack[k] == q.stack[k]);
            lemma_dir_in_longer(
                q.found,
                s.found,
                q.found.len() as int,
                s.found.len() as int,
                q.stack[k].path,
            );
        }
    }
}

proof fn lemma_lists(
    fs: Answers,
    dir: Frame,
    items: Seq<VfsResult<DirEntry>>,
    done: bool,
    p: Progress,
    q: Progress,
)
    requires
        lists(fs, dir, items, done, p, Ok(q)),
    ensures
        done,
        adds(fs, dir, p, q),
        all_held(items, dir.path, q.found),
    decreases items.len(),
{
    if items.len() == 0 {
        lemma_begins_from(p.found, p.found);
        lemma_begins_from(p.stack, p.stack);
    } else {
        let entry = items[0]->Ok_0;
        let rest = items.skip(1);
        if is_dot(entry.name@) {
            lemma_lists(fs, dir, rest, done, p, q);
        } else {
            let m = choose|m: VfsResult<FsMeta>| #[trigger]
                (fs.meta)(entry.id, m) && match m {
                    Err(e) => false,
                    Ok(meta) => lists(
                        fs,
                        dir,
                        rest,
                        done,
                        add_entry(p, dir, entry, meta),
                        Ok::<Progress, VfsError>(q),
                    ),
                };
            let meta = m->Ok_0;
            assert(m == Ok::<FsMeta, VfsError>(meta));
            let next = add_entry(p, dir, entry, meta);
            lemma_adds_one(fs, dir, p, entry, meta);
            lemma_lists(fs, dir, rest, done, next, q);
            lemma_adds_chain(fs, dir, p, next, q);
            lemma_held_in_longer(next.found, q.found, dir.path.push(entry.name@), entry.id);
        }
        assert forall|k: int| 0 <= k < items.len() implies {
            &&& (#[trigger] items[k]) is Ok
            &&& is_dot(items[k]->Ok_0.name@) || holds_node(
                q.found,
                dir.path.push(items[k]->Ok_0.name@),
                items[k]->Ok_0.id,
            )
        } by {
            if k > 0 {
                assert(items[k] == rest[k - 1]);
            }
        }
    }
}

proof fn lemma_inv_listed(
    fs: Answers,
    root: FileId,
    visited: Seq<FileId>,
    p: Progress,
    q: Progress,
)
    requires
        inv(fs, root, visited, p),
        p.stack.len() > 0,
        p.stack.last().depth <= WALK_MAX_DEPTH,
        lists_dir(
            fs,
            p.stack.last(),
            (Progress { stack: p.stack.drop_last(), ..p }),
            Ok(q),
        ),
    ensures
        inv(fs, root, visited.push(p.stack.last().id), q),
{
    let dir = p.stack.last();
    assert(dir == p.stack[p.stack.len() - 1]);
    let popped = Progress { stack: p.stack.drop_last(), ..p };
    let now = visited.push(dir.id);
    let r = Ok::<Progress, VfsError>(q);
    let opened = choose|opened: VfsResult<DirStream>| #[trigger]
        (fs.read_dir)(dir.id, opened) && match opened {
            Err(e) => r == Err::<Progress, VfsError>(e),
            Ok(stream) => exists|items: Seq<VfsResult<DirEntry>>, done: bool| #[trigger]
                stream.may_yield(items, done) && lists(fs, dir, items, done, popped, r),
        };
    let stream = opened->Ok_0;
    let (items, done) = choose|items: Seq<VfsResult<DirEntry>>, done: bool| #[trigger]
        stream.may_yield(items, done) && lists(fs, dir, items, done, popped, r);
    lemma_lists(fs, dir, items, done, popped, q);
    lemma_begins(q.found, p.found);
    lemma_begins(q.stack, popped.stack);
    assert(well_framed(p.found, dir));
    assert(now[visited.len() as int] == dir.id);
    assert(listed_as(fs, dir.id, dir.path, q.found));
    assert(listed(fs, dir.id, q.found));
    assert forall|i: int| 0 <= i < q.found.len() implies #[trigger] well_found(
        fs,
        q.found,
        i,
    ) by {
        if i < p.found.len() {
            assert(well_found(fs, p.found, i));
            assert(q.found[i] == p.found[i]);
            if p.found[i].path.len() > 1 {
                lemma_dir_in_longer(p.found, q.found, i, i, p.found[i].path.drop_last());
            }
        } else {
            let path = q.found[i].path;
            assert forall|k: int| 0 <= k < path.len() implies !is_dot(#[trigger] path[k]) by {
                if k < path.len() - 1 {
                    assert(path[k] == path.drop_last()[k]);
                }
            }
            if path.len() > 1 {
                lemma_dir_in_longer(p.found, q.found, p.found.len() as int, i, dir.path);
            }
        }
    }
    assert forall|k: int| 0 <= k < q.stack.len() implies well_framed(
        q.found,
        #[trigger] q.stack[k],
    ) by {
        if k < popped.stack.len() {
            assert(q.stack[k] == p.stack[k]);
            if p.stack[k].path.len() > 0 {
                lemma_dir_in_longer(
                    p.found,
                    q.found,
                    p.found.len() as int,
                    q.found.len() as int,
                    p.stack[k].path,
                );
            }
        } else {
            let path = q.stack[k].path;
            assert forall|j: int| 0 <= j < path.len() implies !is_dot(#[trigger] path[j]) by {
                if j < path.len() - 1 {
                    assert(path[j] == path.drop_last()[j]);
                }
            }
        }
    }
    assert forall|id: FileId| visited.contains(id) || awaits(p.stack, id) implies now.contains(id)
        || awaits(q.stack, id) by {
        if visited.contains(id) {
            let k = choose|k: int| 0 <= k < visited.len() && visited[k] == id;
            assert(now[k] == id);
        } else {
            let k = choose|k: int|
                0 <= k < p.stack.len() && (#[trigger] p.stack[k]).id == id && p.stack[k].depth
                    <= WALK_MAX_DEPTH;
            if k < popped.stack.len() {
                assert(q.stack[k] == p.stack[k]);
            }
        }
    }
    assert forall|i: int|
        0 <= i < q.found.len() && (#[trigger] q.found[i]).meta.kind == NodeKind::Dir
            && q.found[i].path.len() <= WALK_MAX_DEPTH implies now.contains(q.found[i].id)
        || awaits(q.stack, q.found[i].id) by {
        if i < p.found.len() {
            assert(q.found[i] == p.found[i]);
        } else {
            let k = choose|k: int|
                0 <= k < q.stack.len() && (#[trigger] q.stack[k]).id == q.found[i].id
                    && q.stack[k].depth == dir.depth + 1;
            assert(q.stack[k].depth <= WALK_MAX_DEPTH);
        }
    }
    assert forall|k: int| 0 <= k < now.len() implies listed(
        fs,
        #[trigger] now[k],
        q.found,
    ) by {
        if k < visited.len() {
            assert(now[k] == visited[k]);
            lemma_listed_in_longer(fs, p.found, q.found, visited[k]);
        }
    }
}

proof fn lemma_inv_skipped(fs: Answers, root: FileId, visited: Seq<FileId>, p: Progress)
    requires
        inv(fs, root, visited, p),
        p.stack.len() > 0,
        p.stack.last().depth > WALK_MAX_DEPTH || visited.contains(p.stack.last().id),
    ensures
        inv(fs, root, visited, (Progress { stack: p.stack.drop_last(), ..p })),
{
    let popped = Progress { stack: p.stack.drop_last(), ..p };
    assert forall|k: int| 0 <= k < popped.stack.len() implies well_framed(
        popped.found,
        #[trigger] popped.stack[k],
    ) by {
        assert(popped.stack[k] == p.stack[k]);
    }
    assert forall|id: FileId| visited.contains(id) || awaits(p.stack, id) implies visited.contains(
        id,
    ) || awaits(popped.stack, id) by {
        if !visited.contains(id) {
            let k = choose|k: int|
                0 <= k < p.stack.len() && (#[trigger] p.stack[k]).id == id && p.stack[k].depth
                    <= WALK_MAX_DEPTH;
            assert(k < p.stack.len() - 1);
            assert(popped.stack[k] == p.stack[k]);
        }
    }
    assert forall|i: int|
        0 <= i < popped.found.len() && (#[trigger] popped.found[i]).meta.kind == NodeKind::Dir
            && popped.found[i].path.len() <= WALK_MAX_DEPTH implies visited.contains(
        popped.found[i].id,
    ) || awaits(popped.stack, popped.found[i].id) by {
        assert(popped.found[i] == p.found[i]);
    }
}

/// The last nodes of a walk are as [`inv`] has them, with nothing still to be listed.
proof fn lemma_walks(
    fs: Answers,
    root: FileId,
    visited: Seq<FileId>,
    p: Progress,
    steps: nat,
    found: Seq<Found>,
) -> (seen: Seq<FileId>)
    requires
        inv(fs, root, visited, p),
        walks(fs, visited, p, steps, Ok(found)),
    ensures
        inv(fs, root, seen, (Progress { found, stack: Seq::empty() })),
    decreases steps,
{
    if p.stack.len() == 0 {
        assert(p.stack =~= Seq::empty());
        visited
    } else {
        let dir = p.stack.last();
        let popped = Progress { stack: p.stack.drop_last(), ..p };
        if dir.depth > WALK_MAX_DEPTH || visited.contains(dir.id) {
            lemma_inv_skipped(fs, root, visited, p);
            lemma_walks(fs, root, visited, popped, (steps - 1) as nat, found)
        } else {
            let r = Ok::<Seq<Found>, VfsError>(found);
            let next = choose|next: VfsResult<Progress>| #[trigger]
                lists_dir(fs, dir, popped, next) && match next {
                    Err(e) => steps == 1 && r == Err::<Seq<Found>, VfsError>(e),
                    Ok(q) => walks(fs, visited.push(dir.id), q, (steps - 1) as nat, r),
                };
            let q = next->Ok_0;
            assert(next == Ok::<Progress, VfsError>(q));
            lemma_inv_listed(fs, root, visited, p, q);
            lemma_walks(fs, root, visited.push(dir.id), q, (steps - 1) as nat, found)
        }
    }
}

proof fn lemma_walked(fs: Answers, found: Seq<Found>) -> (r: (FileId, Seq<FileId>))
    requires
        walk_may_give(fs, Ok(found)),
    ensures
        (fs.root)(r.0),
        inv(fs, r.0, r.1, (Progress { found, stack: Seq::empty() })),
{
    let (root, steps) = choose|root: FileId, steps: nat|
        (fs.root)(root) && #[trigger] walks(fs, Seq::empty(), start(root), steps, Ok(found));
    let p = start(root);
    assert(p.stack[0].id == root);
    assert(awaits(p.stack, root));
    let seen = lemma_walks(fs, root, Seq::empty(), p, steps, found);
    (root, seen)
}

/// A walk that succeeds has listed to its end the root and every directory that it
/// found no deeper than the depth cap: nothing that they hold is missing.
pub proof fn every_directory_is_listed(fs: Answers, found: Seq<Found>)
    requires
        walk_may_give(fs, Ok(found)),
    ensures
        exists|root: FileId| #[trigger] (fs.root)(root) && listed(fs, root, found),
        forall|i: int|
            0 <= i < found.len() && (#[trigger] found[i]).meta.kind == NodeKind::Dir
                && found[i].path.len() <= WALK_MAX_DEPTH ==> listed(fs, found[i].id, found),
{
    let (root, seen) = lemma_walked(fs, found);
    let p = Progress { found, stack: Seq::empty() };
    let k = choose|k: int| 0 <= k < seen.len() && seen[k] == root;
    assert(listed(fs, seen[k], found));
    assert forall|i: int|
        0 <= i < found.len() && (#[trigger] found[i]).meta.kind == NodeKind::Dir
            && found[i].path.len() <= WALK_MAX_DEPTH implies listed(fs, found[i].id, found) by {
        assert(p.found[i].meta.kind == NodeKind::Dir);
        assert(seen.contains(p.found[i].id));
        let j = choose|j: int| 0 <= j < seen.len() && seen[j] == found[i].id;
        assert(listed(fs, seen[j], p.found));
    }
}

/// No path that a walk reports holds a `.` or a `..`.
pub proof fn no_dot_entry_is_reported(fs: Answers, found: Seq<Found>, i: int)
    requires
        walk_may_give(fs, Ok(found)),
        0 <= i < found.len(),
    ensures
        dotless(found[i].path),
{
    let (root, seen) = lemma_walked(fs, found);
    let p = Progress { found, stack: Seq::empty() };
    assert(well_found(fs, p.found, i));
}

/// A walk reports nothing more than one level below the depth cap.
pub proof fn a_walk_is_depth_capped(fs: Answers, found: Seq<Found>, i: int)
    requires
        walk_may_give(fs, Ok(found)),
        0 <= i < found.len(),
    ensures
        1 <= found[i].path.len() <= WALK_MAX_DEPTH + 1,
{
    let (root, seen) = lemma_walked(fs, found);
    let p = Progress { found, stack: Seq::empty() };
    assert(well_found(fs, p.found, i));
}

/// The directory that a node lies in is reported before the node.
pub proof fn a_parent_comes_first(fs: Answers, found: Seq<Found>, i: int)
    requires
        walk_may_give(fs, Ok(found)),
        0 <= i < found.len(),
        found[i].path.len() > 1,
    ensures
        holds_dir(found, i, found[i].path.drop_last()),
{
    let (root, seen) = lemma_walked(fs, found);
    let p = Progress { found, stack: Seq::empty() };
    assert(well_found(fs, p.found, i));
}

/// The metadata that a walk reports of a node is what the filesystem answers of it.
pub proof fn reported_metadata_is_the_filesystems(fs: Answers, found: Seq<Found>, i: int)
    requires
        walk_may_give(fs, Ok(found)),
        0 <= i < found.len(),
    ensures
        (fs.meta)(found[i].id, Ok(found[i].meta)),
{
    let (root, seen) = lemma_walked(fs, found);
    let p = Progress { found, stack: Seq::empty() };
    assert(well_found(fs, p.found, i));
}

// ---------------------------------------------------------------------------
// Directory loops
// ---------------------------------------------------------------------------

proof fn lemma_lists_by_meta(
    fs: Answers,
    other: Answers,
    dir: Frame,
    items: Seq<VfsResult<DirEntry>>,
    done: bool,
    p: Progress,
    r: VfsResult<Progress>,
)
    requires
        other.meta == fs.meta,
        lists(fs, dir, items, done, p, r),
    ensures
        lists(other, dir, items, done, p, r),
    decreases items.len(),
{
    if items.len() > 0 {
        if let Ok(entry) = items[0] {
            let rest = items.skip(1);
            if is_dot(entry.name@) {
                lemma_lists_by_meta(fs, other, dir, rest, done, p, r);
            } else {
                let m = choose|m: VfsResult<FsMeta>| #[trigger]
                    (fs.meta)(entry.id, m) && match m {
                        Err(e) => items.len() == 1 && r == Err::<Progress, VfsError>(e),
                        Ok(meta) => lists(
                            fs,
                            dir,
                            rest,
                            done,
                            add_entry(p, dir, entry, meta),
                            r,
                        ),
                    };
                if let Ok(meta) = m {
                    let next = add_entry(p, dir, entry, meta);
                    lemma_lists_by_meta(fs, other, dir, rest, done, next, r);
                }
                assert((other.meta)(entry.id, m));
            }
        }
    }
}

/// A directory that has been listed is not listed again: what it would answer then
/// makes no difference.
pub proof fn a_directory_is_listed_once(
    fs: Answers,
    other: Answers,
    visited: Seq<FileId>,
    p: Progress,
    steps: nat,
    r: VfsResult<Seq<Found>>,
)
    requires
        other.meta == fs.meta,
        forall|id: FileId, s: VfsResult<DirStream>|
            !visited.contains(id) ==> #[trigger] (other.read_dir)(id, s) == (fs.read_dir)(id, s),
        walks(fs, visited, p, steps, r),
    ensures
        walks(other, visited, p, steps, r),
    decreases steps,
{
    if p.stack.len() > 0 {
        let dir = p.stack.last();
        let popped = Progress { stack: p.stack.drop_last(), ..p };
        if dir.depth > WALK_MAX_DEPTH || visited.contains(dir.id) {
            a_directory_is_listed_once(fs, other, visited, popped, (steps - 1) as nat, r);
        } else {
            let next = choose|next: VfsResult<Progress>| #[trigger]
                lists_dir(fs, dir, popped, next) && match next {
                    Err(e) => steps == 1 && r == Err::<Seq<Found>, VfsError>(e),
                    Ok(q) => walks(fs, visited.push(dir.id), q, (steps - 1) as nat, r),
                };
            let opened = choose|opened: VfsResult<DirStream>| #[trigger]
                (fs.read_dir)(dir.id, opened) && match opened {
                    Err(e) => next == Err::<Progress, VfsError>(e),
                    Ok(stream) => exists|items: Seq<VfsResult<DirEntry>>, done: bool| #[trigger]
                        stream.may_yield(items, done) && lists(
                            fs,
                            dir,
                            items,
                            done,
                            popped,
                            next,
                        ),
                };
            assert((other.read_dir)(dir.id, opened));
            if let Ok(stream) = opened {
                let (items, done) = choose|items: Seq<VfsResult<DirEntry>>, done: bool| #[trigger]
                    stream.may_yield(items, done) && lists(fs, dir, items, done, popped, next);
                lemma_lists_by_meta(fs, other, dir, items, done, popped, next);
            }
            assert(lists_dir(other, dir, popped, next));
            if let Ok(q) = next {
                let now = visited.push(dir.id);
                assert forall|id: FileId, s: VfsResult<DirStream>|
                    !now.contains(id) implies #[trigger] (other.read_dir)(id, s) == (fs.read_dir)(
                    id,
                    s,
                ) by {
                    if visited.contains(id) {
                        let k = choose|k: int| 0 <= k < visited.len() && visited[k] == id;
                        assert(now[k] == id);
                    }
                }
                a_directory_is_listed_once(fs, other, now, q, (steps - 1) as nat, r);
            }
        }
    }
}

// ---------------------------------------------------------------------------
// Failures
// ---------------------------------------------------------------------------

/// The filesystem may give the failure `e`: for a listing, for an entry or for the
/// metadata of a node.
pub open spec fn may_fail(fs: Answers, e: VfsError) -> bool {
    ||| exists|id: FileId, r: VfsResult<DirStream>| #[trigger]
        (fs.read_dir)(id, r) && r == Err::<DirStream, VfsError>(e)
    ||| exists|
        id: FileId,
        r: VfsResult<DirStream>,
        items: Seq<VfsResult<DirEntry>>,
        done: bool,
    |
        {
            &&& #[trigger] (fs.read_dir)(id, r)
            &&& r is Ok
            &&& #[trigger] r->Ok_0.may_yield(items, done)
            &&& items.len() > 0
            &&& items.last() == Err::<DirEntry, VfsError>(e)
        }
    ||| exists|id: FileId, r: VfsResult<FsMeta>| #[trigger]
        (fs.meta)(id, r) && r == Err::<FsMeta, VfsError>(e)
}

proof fn lemma_lists_fails(
    fs: Answers,
    dir: Frame,
    items: Seq<VfsResult<DirEntry>>,
    done: bool,
    p: Progress,
    e: VfsError,
)
    requires
        lists(fs, dir, items, done, p, Err(e)),
    ensures
        items.len() > 0,
        items.last() == Err::<DirEntry, VfsError>(e) || exists|id: FileId, r: VfsResult<FsMeta>|
            #[trigger] (fs.meta)(id, r) && r == Err::<FsMeta, VfsError>(e),
    decreases items.len(),
{
    if let Ok(entry) = items[0] {
        let rest = items.skip(1);
        if is_dot(entry.name@) {
            lemma_lists_fails(fs, dir, rest, done, p, e);
            assert(rest.last() == items.last());
        } else {
            let r = Err::<Progress, VfsError>(e);
            let m = choose|m: VfsResult<FsMeta>| #[trigger]
                (fs.meta)(entry.id, m) && match m {
                    Err(e) => items.len() == 1 && r == Err::<Progress, VfsError>(e),
                    Ok(meta) => lists(fs, dir, rest, done, add_entry(p, dir, entry, meta), r),
                };
            if let Ok(meta) = m {
                let next = add_entry(p, dir, entry, meta);
                lemma_lists_fails(fs, dir, rest, done, next, e);
                assert(rest.last() == items.last());
            }
        }
    }
}

proof fn lemma_walks_fails(
    fs: Answers,
    visited: Seq<FileId>,
    p: Progress,
    steps: nat,
    e: VfsError,
)
    requires
        walks(fs, visited, p, steps, Err(e)),
    ensures
        may_fail(fs, e),
    decreases steps,
{
    if p.stack.len() > 0 {
        let r = Err::<Seq<Found>, VfsError>(e);
        let dir = p.stack.last();
        let popped = Progress { stack: p.stack.drop_last(), ..p };
        if dir.depth > WALK_MAX_DEPTH || visited.contains(dir.id) {
            lemma_walks_fails(fs, visited, popped, (steps - 1) as nat, e);
        } else {
            let next = choose|next: VfsResult<Progress>| #[trigger]
                lists_dir(fs, dir, popped, next) && match next {
                    Err(e) => steps == 1 && r == Err::<Seq<Found>, VfsError>(e),
                    Ok(q) => walks(fs, visited.push(dir.id), q, (steps - 1) as nat, r),
                };
            match next {
                Ok(q) => {
                    lemma_walks_fails(fs, visited.push(dir.id), q, (steps - 1) as nat, e);
                },
                Err(f) => {
                    assert(f == e);
                    let opened = choose|opened: VfsResult<DirStream>| #[trigger]
                        (fs.read_dir)(dir.id, opened) && match opened {
                            Err(e) => next == Err::<Progress, VfsError>(e),
                            Ok(stream) => exists|
                                items: Seq<VfsResult<DirEntry>>,
                                done: bool,
                            | #[trigger]
                                stream.may_yield(items, done) && lists(
                                    fs,
                                    dir,
                                    items,
                                    done,
                                    popped,
                                    next,
                                ),
                        };
                    if let Ok(stream) = opened {
                        let (items, done) = choose|
                            items: Seq<VfsResult<DirEntry>>,
                            done: bool,
                        | #[trigger]
                            stream.may_yield(items, done) && lists(
                                fs,
                                dir,
                                items,
                                done,
                                popped,
                                next,
                            );
                        lemma_lists_fails(fs, dir, items, done, popped, e);
                        assert(opened->Ok_0.may_yield(items, done));
                    }
                },
            }
        }
    }
}

/// A walk fails only with a failure that the filesystem gave; where the filesystem
/// cannot fail, the walk does not.
pub proof fn a_failed_walk_reports_the_filesystems_failure(fs: Answers, e: VfsError)
    requires
        walk_may_give(fs, Err(e)),
    ensures
        may_fail(fs, e),
{
    let (root, steps) = choose|root: FileId, steps: nat|
        (fs.root)(root) && #[trigger] walks(
            fs,
            Seq::empty(),
            start(root),
            steps,
            Err::<Seq<Found>, VfsError>(e),
        );
    lemma_walks_fails(fs, Seq::empty(), start(root), steps, e);
}

} // verus!
