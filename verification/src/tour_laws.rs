//! A successful walk, said as a tour: which directories were listed, in which order, and
//! that what was found is what their listings hold, entry by entry.

use vstd::prelude::*;

use forensicnomicon_core::FileId;

use crate::error::{VfsError, VfsResult};
use crate::fs::{DirEntry, DirStream, FileSystem, FsMeta, NodeKind};
use crate::walk::{
    add_entry, answers, is_dot, lists, lists_dir, nodes, start, walk_from_root, walk_may_give,
    walks, Answers, Found, Frame, Progress, WalkEntry,
};

verus! {

broadcast use vstd::seq::group_seq_axioms;

/// The name is one dot or two, and nothing else.
pub open spec fn is_dots(name: Seq<u8>) -> bool {
    ||| name.len() == 1 && name[0] == 0x2e
    ||| name.len() == 2 && name[0] == 0x2e && name[1] == 0x2e
}

/// The nodes are those of the entries, in order: one for each entry that is not named by
/// dots, under the directory's path and the entry's name, with the entry's id and what
/// the filesystem answers of it.
pub open spec fn reports(
    fs: Answers,
    path: Seq<Seq<u8>>,
    items: Seq<VfsResult<DirEntry>>,
    found: Seq<Found>,
) -> bool
    decreases items.len(),
{
    if items.len() == 0 {
        found.len() == 0
    } else {
        match items[0] {
            Err(_) => false,
            Ok(entry) => if is_dots(entry.name@) {
                reports(fs, path, items.skip(1), found)
            } else {
                &&& found.len() > 0
                &&& found[0].path == path.push(entry.name@)
                &&& found[0].id == entry.id
                &&& (fs.meta)(entry.id, Ok(found[0].meta))
                &&& reports(fs, path, items.skip(1), found.skip(1))
            },
        }
    }
}

/// One listed directory: its path, its id, what its listing held, and which of the nodes
/// it gave.
pub struct Visit {
    pub path: Seq<Seq<u8>>,
    pub id: FileId,
    pub items: Seq<VfsResult<DirEntry>>,
    pub from: int,
    pub to: int,
}

/// The listing of the directory holds these items to its end, and gave these nodes.
pub open spec fn visited_well(fs: Answers, v: Visit, found: Seq<Found>) -> bool {
    &&& 0 <= v.from <= v.to <= found.len()
    &&& reports(fs, v.path, v.items, found.subrange(v.from, v.to))
    &&& exists|opened: VfsResult<DirStream>|
        {
            &&& #[trigger] (fs.read_dir)(v.id, opened)
            &&& opened is Ok
            &&& opened->Ok_0.may_yield(v.items, true)
        }
}

/// One of the visits is to that directory.
pub open spec fn went_to(visits: Seq<Visit>, id: FileId) -> bool {
    exists|k: int| 0 <= k < visits.len() && (#[trigger] visits[k]).id == id
}

/// Node `j` is a directory to be listed after the visits: at most 256 levels down, and
/// none of the visits was to it.
pub open spec fn still_to_list(found: Seq<Found>, j: int, visits: Seq<Visit>) -> bool {
    &&& found[j].meta.kind == NodeKind::Dir
    &&& found[j].path.len() <= 256
    &&& !went_to(visits, found[j].id)
}

/// The directory of visit `k` is the one found last of those still to be listed.
pub open spec fn found_last(found: Seq<Found>, visits: Seq<Visit>, k: int) -> bool {
    exists|j: int|
        {
            &&& 0 <= j < visits[k].from
            &&& (#[trigger] found[j]).path == visits[k].path
            &&& found[j].id == visits[k].id
            &&& still_to_list(found, j, visits.take(k))
            &&& forall|l: int|
                j < l < visits[k].from ==> !#[trigger] still_to_list(found, l, visits.take(k))
        }
}

/// The visits are a tour of the filesystem that gives these nodes: it begins at the root,
/// goes on with the directory found last of those still to be listed, gathers the nodes of
/// each listing, and ends when there is none left.
pub open spec fn tours(fs: Answers, visits: Seq<Visit>, found: Seq<Found>) -> bool {
    &&& visits.len() > 0
    &&& visits[0].path.len() == 0
    &&& (fs.root)(visits[0].id)
    &&& visits[0].from == 0
    &&& visits.last().to == found.len()
    &&& forall|k: int| 0 <= k < visits.len() ==> visited_well(fs, #[trigger] visits[k], found)
    &&& forall|k: int|
        1 <= k < visits.len() ==> (#[trigger] visits[k]).from == visits[k - 1].to && found_last(
            found,
            visits,
            k,
        )
    &&& forall|j: int| 0 <= j < found.len() ==> !#[trigger] still_to_list(found, j, visits)
}

// ---------------------------------------------------------------------------
// The steps of a tour
// ---------------------------------------------------------------------------

proof fn lemma_dots(name: Seq<u8>)
    ensures
        is_dot(name) <==> is_dots(name),
{
    let one = seq!['.' as u8];
    let two = seq!['.' as u8, '.' as u8];
    if is_dots(name) {
        assert(name =~= one || name =~= two);
    }
}

/// Frame `k` of the stack is for the node `at[k]`, or for the root where that is -1; the
/// nodes come in the order of the stack.
spec fn stacked(found: Seq<Found>, root: FileId, stack: Seq<Frame>, at: Seq<int>) -> bool {
    &&& at.len() == stack.len()
    &&& forall|k: int, l: int| 0 <= k < l < at.len() ==> at[k] < at[l]
    &&& forall|k: int|
        0 <= k < stack.len() ==> {
            &&& (#[trigger] stack[k]).depth == stack[k].path.len()
            &&& -1 <= at[k] < found.len()
            &&& at[k] == -1 ==> stack[k].path.len() == 0 && stack[k].id == root
            &&& at[k] >= 0 ==> {
                &&& found[at[k]].path == stack[k].path
                &&& found[at[k]].id == stack[k].id
                &&& found[at[k]].meta.kind == NodeKind::Dir
            }
        }
}

spec fn all_dirs_at(found: Seq<Found>, from: int, at: Seq<int>) -> bool {
    forall|j: int|
        from <= j < found.len() && (#[trigger] found[j]).meta.kind == NodeKind::Dir ==> at.contains(
            j,
        )
}

proof fn lemma_reports_append(
    fs: Answers,
    path: Seq<Seq<u8>>,
    entry: DirEntry,
    meta: FsMeta,
    rest: Seq<VfsResult<DirEntry>>,
    items: Seq<VfsResult<DirEntry>>,
    found: Seq<Found>,
)
    requires
        items.len() > 0,
        items[0] == Ok::<DirEntry, VfsError>(entry),
        items.skip(1) == rest,
        !is_dots(entry.name@),
        found.len() > 0,
        found[0] == (Found { path: path.push(entry.name@), id: entry.id, meta }),
        (fs.meta)(entry.id, Ok(meta)),
        reports(fs, path, rest, found.skip(1)),
    ensures
        reports(fs, path, items, found),
{
}

/// Listing a directory adds the nodes of its listing, and its directories to the stack.
proof fn lemma_lists(
    fs: Answers,
    root: FileId,
    dir: Frame,
    items: Seq<VfsResult<DirEntry>>,
    done: bool,
    p: Progress,
    q: Progress,
    at: Seq<int>,
) -> (now: Seq<int>)
    requires
        lists(fs, dir, items, done, p, Ok(q)),
        stacked(p.found, root, p.stack, at),
        dir.depth == dir.path.len(),
    ensures
        done,
        p.found.len() <= q.found.len(),
        q.found.take(p.found.len() as int) == p.found,
        reports(fs, dir.path, items, q.found.skip(p.found.len() as int)),
        stacked(q.found, root, q.stack, now),
        all_dirs_at(q.found, p.found.len() as int, now),
        forall|j: int| at.contains(j) ==> now.contains(j),
        forall|k: int| 0 <= k < now.len() ==> (#[trigger] now[k]) >= 0 || at.contains(now[k]),
    decreases items.len(),
{
    let n = p.found.len() as int;
    if items.len() == 0 {
        assert(q.found.take(n) =~= p.found);
        at
    } else {
        let entry = items[0]->Ok_0;
        let rest = items.skip(1);
        lemma_dots(entry.name@);
        if is_dot(entry.name@) {
            lemma_lists(fs, root, dir, rest, done, p, q, at)
        } else {
            let m = choose|m: VfsResult<FsMeta>| #[trigger]
                (fs.meta)(entry.id, m) && match m {
                    Err(e) => false,
                    Ok(meta) => lists(
                        fs,
                        dir,
                        rest,
                        done,
                        add_entry(p, dir, entry, meta),
                        Ok::<Progress, VfsError>(q),
                    ),
                };
            let meta = m->Ok_0;
            assert(m == Ok::<FsMeta, VfsError>(meta));
            let next = add_entry(p, dir, entry, meta);
            let node = Found { path: dir.path.push(entry.name@), id: entry.id, meta };
            assert(next.found == p.found.push(node));
            let is_dir = meta.kind == NodeKind::Dir;
            let more = if is_dir {
                at.push(n)
            } else {
                at
            };
            assert(stacked(next.found, root, next.stack, more)) by {
                assert forall|k: int| 0 <= k < next.stack.len() implies {
                    &&& (#[trigger] next.stack[k]).depth == next.stack[k].path.len()
                    &&& -1 <= more[k] < next.found.len()
                    &&& more[k] == -1 ==> next.stack[k].path.len() == 0 && next.stack[k].id == root
                    &&& more[k] >= 0 ==> {
                        &&& next.found[more[k]].path == next.stack[k].path
                        &&& next.found[more[k]].id == next.stack[k].id
                        &&& next.found[more[k]].meta.kind == NodeKind::Dir
                    }
                } by {
                    if k < p.stack.len() {
                        assert(next.stack[k] == p.stack[k]);
                        assert(more[k] == at[k]);
                    }
                }
                assert forall|k: int, l: int| 0 <= k < l < more.len() implies more[k]
                    < more[l] by {
                    if l == at.len() {
                        assert(p.stack[k].depth == p.stack[k].path.len());
                    }
                }
            }
            let now = lemma_lists(fs, root, dir, rest, done, next, q, more);
            assert(q.found.take(n) =~= q.found.take(n + 1).take(n));
            assert(next.found.take(n) =~= p.found);
            let tail = q.found.skip(n);
            assert(q.found.take(n + 1)[n] == node);
            assert(tail[0] == node);
            assert(tail.skip(1) =~= q.found.skip(n + 1));
            lemma_reports_append(fs, dir.path, entry, meta, rest, items, tail);
            assert forall|j: int|
                n <= j < q.found.len() && (#[trigger] q.found[j]).meta.kind
                    == NodeKind::Dir implies now.contains(j) by {
                if j == n {
                    assert(more[at.len() as int] == n);
                    assert(more.contains(n));
                }
            }
            assert forall|j: int| at.contains(j) implies now.contains(j) by {
                let k = choose|k: int| 0 <= k < at.len() && at[k] == j;
                assert(more[k] == j);
                assert(more.contains(j));
            }
            assert forall|k: int| 0 <= k < now.len() implies (#[trigger] now[k]) >= 0
                || at.contains(now[k]) by {
                if now[k] < 0 {
                    let l = choose|l: int| 0 <= l < more.len() && more[l] == now[k];
                    assert(at[l] == now[k]);
                }
            }
            now
        }
    }
}

/// The visits so far have given these nodes and left this stack.
spec fn on_tour(
    fs: Answers,
    root: FileId,
    visited: Seq<FileId>,
    p: Progress,
    visits: Seq<Visit>,
    at: Seq<int>,
) -> bool {
    &&& (fs.root)(root)
    &&& stacked(p.found, root, p.stack, at)
    &&& visits.len() == visited.len()
    &&& forall|k: int| 0 <= k < visits.len() ==> (#[trigger] visits[k]).id == visited[k]
    &&& visits.len() == 0 ==> {
        &&& p.found.len() == 0
        &&& p.stack.len() == 1
        &&& at[0] == -1
    }
    &&& visits.len() > 0 ==> {
        &&& visits[0].path.len() == 0
        &&& visits[0].id == root
        &&& visits[0].from == 0
        &&& visits.last().to == p.found.len()
        &&& forall|k: int| 0 <= k < at.len() ==> at[k] >= 0
    }
    &&& forall|k: int| 0 <= k < visits.len() ==> visited_well(fs, #[trigger] visits[k], p.found)
    &&& forall|k: int|
        1 <= k < visits.len() ==> (#[trigger] visits[k]).from == visits[k - 1].to && found_last(
            p.found,
            visits,
            k,
        )
    &&& forall|j: int|
        0 <= j < p.found.len() && #[trigger] still_to_list(p.found, j, visits) ==> at.contains(j)
}

proof fn lemma_went_to(visits: Seq<Visit>, visited: Seq<FileId>, id: FileId)
    requires
        visits.len() == visited.len(),
        forall|k: int| 0 <= k < visits.len() ==> (#[trigger] visits[k]).id == visited[k],
    ensures
        went_to(visits, id) <==> visited.contains(id),
{
    if visited.contains(id) {
        let k = choose|k: int| 0 <= k < visited.len() && visited[k] == id;
        assert(visits[k].id == id);
    }
}

proof fn lemma_skips(
    fs: Answers,
    root: FileId,
    visited: Seq<FileId>,
    p: Progress,
    visits: Seq<Visit>,
    at: Seq<int>,
)
    requires
        on_tour(fs, root, visited, p, visits, at),
        p.stack.len() > 0,
        p.stack.last().depth > 256 || visited.contains(p.stack.last().id),
    ensures
        on_tour(
            fs,
            root,
            visited,
            (Progress { stack: p.stack.drop_last(), ..p }),
            visits,
            at.drop_last(),
        ),
{
    let popped = Progress { stack: p.stack.drop_last(), ..p };
    let left = at.drop_last();
    let top = p.stack.len() - 1;
    let dir = p.stack[top];
    assert(dir.depth == dir.path.len());
    assert(visits.len() > 0);
    lemma_went_to(visits, visited, dir.id);
    assert forall|k: int| 0 <= k < popped.stack.len() implies {
        &&& (#[trigger] popped.stack[k]).depth == popped.stack[k].path.len()
        &&& -1 <= left[k] < popped.found.len()
        &&& left[k] == -1 ==> popped.stack[k].path.len() == 0 && popped.stack[k].id == root
        &&& left[k] >= 0 ==> {
            &&& popped.found[left[k]].path == popped.stack[k].path
            &&& popped.found[left[k]].id == popped.stack[k].id
            &&& popped.found[left[k]].meta.kind == NodeKind::Dir
        }
    } by {
        assert(popped.stack[k] == p.stack[k]);
    }
    assert forall|j: int|
        0 <= j < popped.found.len() && #[trigger] still_to_list(
            popped.found,
            j,
            visits,
        ) implies left.contains(j) by {
        assert(still_to_list(p.found, j, visits));
        let k = choose|k: int| 0 <= k < at.len() && at[k] == j;
        assert(k != top);
        assert(left[k] == j);
    }
}

proof fn lemma_visit_in_longer(fs: Answers, v: Visit, shorter: Seq<Found>, longer: Seq<Found>)
    requires
        visited_well(fs, v, shorter),
        shorter.len() <= longer.len(),
        longer.take(shorter.len() as int) == shorter,
    ensures
        visited_well(fs, v, longer),
{
    assert(longer.subrange(v.from, v.to) =~= longer.take(shorter.len() as int).subrange(
        v.from,
        v.to,
    ));
}

proof fn lemma_last_in_longer(
    shorter: Seq<Found>,
    longer: Seq<Found>,
    visits: Seq<Visit>,
    more: Seq<Visit>,
    k: int,
)
    requires
        shorter.len() <= longer.len(),
        longer.take(shorter.len() as int) == shorter,
        1 <= k < visits.len() <= more.len(),
        more.take(visits.len() as int) == visits,
        visits[k].from <= shorter.len(),
        found_last(shorter, visits, k),
    ensures
        found_last(longer, more, k),
{
    assert forall|i: int| 0 <= i < shorter.len() implies #[trigger] longer[i] == shorter[i] by {
        assert(longer.take(shorter.len() as int)[i] == longer[i]);
    }
    assert(more.take(visits.len() as int)[k] == more[k]);
    assert(more.take(k) =~= more.take(visits.len() as int).take(k));
    let j = choose|j: int|
        {
            &&& 0 <= j < visits[k].from
            &&& (#[trigger] shorter[j]).path == visits[k].path
            &&& shorter[j].id == visits[k].id
            &&& still_to_list(shorter, j, visits.take(k))
            &&& forall|l: int|
                j < l < visits[k].from ==> !#[trigger] still_to_list(shorter, l, visits.take(k))
        };
    assert(longer[j] == shorter[j]);
    assert(still_to_list(longer, j, more.take(k)));
    assert forall|l: int| j < l < more[k].from implies !#[trigger] still_to_list(
        longer,
        l,
        more.take(k),
    ) by {
        assert(longer[l] == shorter[l]);
        assert(!still_to_list(shorter, l, visits.take(k)));
    }
}

proof fn lemma_visits(
    fs: Answers,
    root: FileId,
    visited: Seq<FileId>,
    p: Progress,
    visits: Seq<Visit>,
    at: Seq<int>,
    q: Progress,
) -> (r: (Seq<Visit>, Seq<int>))
    requires
        on_tour(fs, root, visited, p, visits, at),
        p.stack.len() > 0,
        p.stack.last().depth <= 256,
        !visited.contains(p.stack.last().id),
        lists_dir(fs, p.stack.last(), (Progress { stack: p.stack.drop_last(), ..p }), Ok(q)),
    ensures
        on_tour(fs, root, visited.push(p.stack.last().id), q, r.0, r.1),
{
    let popped = Progress { stack: p.stack.drop_last(), ..p };
    let left = at.drop_last();
    let top = p.stack.len() - 1;
    let dir = p.stack[top];
    let n = p.found.len() as int;
    let result = Ok::<Progress, VfsError>(q);
    assert(dir == p.stack.last());
    assert(dir.depth == dir.path.len());
    let opened = choose|opened: VfsResult<DirStream>| #[trigger]
        (fs.read_dir)(dir.id, opened) && match opened {
            Err(e) => result == Err::<Progress, VfsError>(e),
            Ok(stream) => exists|items: Seq<VfsResult<DirEntry>>, done: bool| #[trigger]
                stream.may_yield(items, done) && lists(fs, dir, items, done, popped, result),
        };
    let stream = opened->Ok_0;
    let (items, done) = choose|items: Seq<VfsResult<DirEntry>>, done: bool| #[trigger]
        stream.may_yield(items, done) && lists(fs, dir, items, done, popped, result);
    assert(stacked(popped.found, root, popped.stack, left)) by {
        assert forall|k: int| 0 <= k < popped.stack.len() implies {
            &&& (#[trigger] popped.stack[k]).depth == popped.stack[k].path.len()
            &&& -1 <= left[k] < popped.found.len()
            &&& left[k] == -1 ==> popped.stack[k].path.len() == 0 && popped.stack[k].id == root
            &&& left[k] >= 0 ==> {
                &&& popped.found[left[k]].path == popped.stack[k].path
                &&& popped.found[left[k]].id == popped.stack[k].id
                &&& popped.found[left[k]].meta.kind == NodeKind::Dir
            }
        } by {
            assert(popped.stack[k] == p.stack[k]);
        }
    }
    let now = lemma_lists(fs, root, dir, items, done, popped, q, left);
    let v = Visit { path: dir.path, id: dir.id, items, from: n, to: q.found.len() as int };
    let more = visits.push(v);
    let seen = visited.push(dir.id);
    assert(q.found.subrange(n, q.found.len() as int) =~= q.found.skip(n));
    assert((fs.read_dir)(v.id, opened));
    assert(visited_well(fs, v, q.found));
    lemma_went_to(visits, visited, dir.id);
    assert(more.take(visits.len() as int) =~= visits);
    assert forall|i: int| 0 <= i < n implies #[trigger] q.found[i] == p.found[i] by {
        assert(q.found.take(n)[i] == q.found[i]);
    }
    assert forall|k: int| 0 <= k < more.len() implies visited_well(
        fs,
        #[trigger] more[k],
        q.found,
    ) by {
        if k < visits.len() {
            assert(more[k] == visits[k]);
            lemma_visit_in_longer(fs, visits[k], p.found, q.found);
        }
    }
    assert forall|k: int| 1 <= k < more.len() implies (#[trigger] more[k]).from == more[k - 1].to
        && found_last(q.found, more, k) by {
        if k < visits.len() {
            assert(more[k] == visits[k]);
            assert(more[k - 1] == visits[k - 1]);
            assert(visited_well(fs, visits[k], p.found));
            lemma_last_in_longer(p.found, q.found, visits, more, k);
        } else {
            assert(more[k - 1] == visits.last());
            let j = at[top];
            assert(j >= 0);
            assert(q.found[j] == p.found[j]);
            assert(more.take(k) =~= visits);
            assert(still_to_list(q.found, j, more.take(k)));
            assert forall|l: int| j < l < more[k].from implies !#[trigger] still_to_list(
                q.found,
                l,
                more.take(k),
            ) by {
                assert(q.found[l] == p.found[l]);
                if still_to_list(p.found, l, visits) {
                    let i = choose|i: int| 0 <= i < at.len() && at[i] == l;
                    if i < top {
                        assert(at[i] < at[top]);
                    }
                }
            }
        }
    }
    assert forall|k: int| 0 <= k < now.len() implies now[k] >= 0 by {
        if now[k] < 0 {
            let l = choose|l: int| 0 <= l < left.len() && left[l] == now[k];
            assert(at[l] == now[k]);
        }
    }
    assert forall|j: int|
        0 <= j < q.found.len() && #[trigger] still_to_list(q.found, j, more) implies now.contains(
        j,
    ) by {
        if j < n {
            assert(q.found[j] == p.found[j]);
            assert(!went_to(visits, p.found[j].id)) by {
                if went_to(visits, p.found[j].id) {
                    let k = choose|k: int|
                        0 <= k < visits.len() && (#[trigger] visits[k]).id == p.found[j].id;
                    assert(more[k].id == p.found[j].id);
                }
            }
            assert(still_to_list(p.found, j, visits));
            let k = choose|k: int| 0 <= k < at.len() && at[k] == j;
            if k == top {
                assert(more[visits.len() as int].id == dir.id);
            } else {
                assert(left[k] == j);
                assert(left.contains(j));
            }
        }
    }
    (more, now)
}

proof fn lemma_tour(
    fs: Answers,
    root: FileId,
    visited: Seq<FileId>,
    p: Progress,
    steps: nat,
    found: Seq<Found>,
    visits: Seq<Visit>,
    at: Seq<int>,
) -> (all: Seq<Visit>)
    requires
        on_tour(fs, root, visited, p, visits, at),
        walks(fs, visited, p, steps, Ok(found)),
    ensures
        tours(fs, all, found),
    decreases steps,
{
    if p.stack.len() == 0 {
        visits
    } else {
        let dir = p.stack.last();
        let popped = Progress { stack: p.stack.drop_last(), ..p };
        if dir.depth > 256 || visited.contains(dir.id) {
            lemma_skips(fs, root, visited, p, visits, at);
            lemma_tour(
                fs,
                root,
                visited,
                popped,
                (steps - 1) as nat,
                found,
                visits,
                at.drop_last(),
            )
        } else {
            let r = Ok::<Seq<Found>, VfsError>(found);
            let next = choose|next: VfsResult<Progress>| #[trigger]
                lists_dir(fs, dir, popped, next) && match next {
                    Err(e) => steps == 1 && r == Err::<Seq<Found>, VfsError>(e),
                    Ok(q) => walks(fs, visited.push(dir.id), q, (steps - 1) as nat, r),
                };
            let q = next->Ok_0;
            assert(next == Ok::<Progress, VfsError>(q));
            let (more, now) = lemma_visits(fs, root, visited, p, visits, at, q);
            lemma_tour(
                fs,
                root,
                visited.push(dir.id),
                q,
                (steps - 1) as nat,
                found,
                more,
                now,
            )
        }
    }
}

/// A walk that succeeds is a tour: the root and every directory that is found no more than
/// 256 levels down is listed once, to its end, and the nodes are, listing by listing and
/// entry by entry, those of every entry that is not named by one dot or two.
pub proof fn a_walk_is_a_tour(fs: Answers, found: Seq<Found>) -> (visits: Seq<Visit>)
    requires
        walk_may_give(fs, Ok(found)),
    ensures
        tours(fs, visits, found),
{
    let (root, steps) = choose|root: FileId, steps: nat|
        (fs.root)(root) && #[trigger] walks(fs, Seq::empty(), start(root), steps, Ok(found));
    let p = start(root);
    let at = seq![-1int];
    assert(p.stack[0].path.len() == 0);
    assert(on_tour(fs, root, Seq::empty(), p, Seq::empty(), at));
    lemma_tour(fs, root, Seq::empty(), p, steps, found, Seq::empty(), at)
}

// ---------------------------------------------------------------------------
// Entries and nodes
// ---------------------------------------------------------------------------

/// Node `j` is the entry of that name and id in the directory `path`.
pub open spec fn is_node_of(
    found: Seq<Found>,
    j: int,
    path: Seq<Seq<u8>>,
    name: Seq<u8>,
    id: FileId,
) -> bool {
    &&& found[j].path == path.push(name)
    &&& found[j].id == id
}

proof fn lemma_entry_reported(
    fs: Answers,
    path: Seq<Seq<u8>>,
    items: Seq<VfsResult<DirEntry>>,
    found: Seq<Found>,
    i: int,
) -> (j: int)
    requires
        reports(fs, path, items, found),
        0 <= i < items.len(),
        items[i] is Ok,
        !is_dots(items[i]->Ok_0.name@),
    ensures
        0 <= j < found.len(),
        is_node_of(found, j, path, items[i]->Ok_0.name@, items[i]->Ok_0.id),
    decreases items.len(),
{
    let rest = items.skip(1);
    if i == 0 {
        0
    } else if is_dots(items[0]->Ok_0.name@) {
        assert(rest[i - 1] == items[i]);
        lemma_entry_reported(fs, path, rest, found, i - 1)
    } else {
        assert(rest[i - 1] == items[i]);
        let j = lemma_entry_reported(fs, path, rest, found.skip(1), i - 1);
        assert(found.skip(1)[j] == found[j + 1]);
        j + 1
    }
}

proof fn lemma_node_listed(
    fs: Answers,
    path: Seq<Seq<u8>>,
    items: Seq<VfsResult<DirEntry>>,
    found: Seq<Found>,
    j: int,
) -> (i: int)
    requires
        reports(fs, path, items, found),
        0 <= j < found.len(),
    ensures
        0 <= i < items.len(),
        items[i] is Ok,
        !is_dots(items[i]->Ok_0.name@),
        is_node_of(found, j, path, items[i]->Ok_0.name@, items[i]->Ok_0.id),
    decreases items.len(),
{
    let rest = items.skip(1);
    if is_dots(items[0]->Ok_0.name@) {
        let i = lemma_node_listed(fs, path, rest, found, j);
        assert(rest[i] == items[i + 1]);
        i + 1
    } else if j == 0 {
        0
    } else {
        assert(found.skip(1)[j - 1] == found[j]);
        let i = lemma_node_listed(fs, path, rest, found.skip(1), j - 1);
        assert(rest[i] == items[i + 1]);
        i + 1
    }
}

/// Nothing that a listed directory holds is missing: each entry of the listing is among the
/// nodes, under the directory's path and its own name, unless that is one dot or two.
pub proof fn every_entry_is_a_node(
    fs: Answers,
    visits: Seq<Visit>,
    found: Seq<Found>,
    k: int,
    i: int,
)
    requires
        tours(fs, visits, found),
        0 <= k < visits.len(),
        0 <= i < visits[k].items.len(),
    ensures
        visits[k].items[i] matches Ok(entry) ==> is_dots(entry.name@) || exists|j: int|
            visits[k].from <= j < visits[k].to && #[trigger] is_node_of(
                found,
                j,
                visits[k].path,
                entry.name@,
                entry.id,
            ),
{
    let v = visits[k];
    assert(visited_well(fs, v, found));
    if let Ok(entry) = v.items[i] {
        if !is_dots(entry.name@) {
            let part = found.subrange(v.from, v.to);
            let j = lemma_entry_reported(fs, v.path, v.items, part, i);
            assert(part[j] == found[v.from + j]);
            assert(is_node_of(found, v.from + j, v.path, entry.name@, entry.id));
        }
    }
}

/// Nothing is made up: each node is an entry of the listing of a directory that was
/// visited, under that directory's path, and is not named by dots.
pub proof fn every_node_is_an_entry(fs: Answers, visits: Seq<Visit>, found: Seq<Found>, j: int)
    requires
        tours(fs, visits, found),
        0 <= j < found.len(),
    ensures
        exists|k: int, i: int|
            {
                &&& 0 <= k < visits.len()
                &&& 0 <= i < visits[k].items.len()
                &&& (#[trigger] visits[k].items[i]) is Ok
                &&& !is_dots(visits[k].items[i]->Ok_0.name@)
                &&& is_node_of(
                    found,
                    j,
                    visits[k].path,
                    visits[k].items[i]->Ok_0.name@,
                    visits[k].items[i]->Ok_0.id,
                )
            },
{
    let k = lemma_block_of(fs, visits, found, j, visits.len() as int);
    let v = visits[k];
    assert(visited_well(fs, v, found));
    let part = found.subrange(v.from, v.to);
    let i = lemma_node_listed(fs, v.path, v.items, part, j - v.from);
    assert(part[j - v.from] == found[j]);
    assert(visits[k].items[i] is Ok);
}

/// The blocks of the first `n` visits cover the nodes up to the end of the last.
proof fn lemma_block_of(
    fs: Answers,
    visits: Seq<Visit>,
    found: Seq<Found>,
    j: int,
    n: int,
) -> (k: int)
    requires
        tours(fs, visits, found),
        1 <= n <= visits.len(),
        0 <= j < visits[n - 1].to,
    ensures
        0 <= k < n,
        visits[k].from <= j < visits[k].to,
    decreases n,
{
    if j >= visits[n - 1].from {
        n - 1
    } else {
        assert(n > 1);
        assert(visits[n - 1].from == visits[n - 2].to);
        lemma_block_of(fs, visits, found, j, n - 1)
    }
}

/// No directory is listed twice.
pub proof fn no_directory_is_visited_twice(
    fs: Answers,
    visits: Seq<Visit>,
    found: Seq<Found>,
    j: int,
    k: int,
)
    requires
        tours(fs, visits, found),
        0 <= j < k < visits.len(),
    ensures
        visits[j].id != visits[k].id,
{
    assert(visits[k].from == visits[k - 1].to);
    assert(found_last(found, visits, k));
    let before = visits.take(k);
    assert(before[j].id == visits[j].id);
}

// ---------------------------------------------------------------------------
// The walk itself
// ---------------------------------------------------------------------------

/// What the filesystem may say when it is asked.
pub open spec fn told_by<F: FileSystem + ?Sized>(fs: &F) -> Answers {
    Answers {
        root: |id: FileId| fs.may_root(id),
        read_dir: |id: FileId, r: VfsResult<DirStream>| fs.may_read_dir(id, r),
        meta: |id: FileId, r: VfsResult<FsMeta>| fs.may_meta(id, r),
    }
}

/// The entry holds the node: its path component by component, its id and its metadata.
pub open spec fn holds_found(e: WalkEntry, f: Found) -> bool {
    &&& e.path@.len() == f.path.len()
    &&& forall|k: int| 0 <= k < f.path.len() ==> (#[trigger] e.path@[k])@ == f.path[k]
    &&& e.id == f.id
    &&& e.meta == f.meta
}

/// The entries that a walk gives are the nodes of a tour of the filesystem.
pub proof fn a_walk_gives_a_tour<F: FileSystem + ?Sized>(
    fs: &F,
    r: VfsResult<Vec<WalkEntry>>,
) -> (tour: (Seq<Visit>, Seq<Found>))
    requires
        call_ensures(walk_from_root::<F>, (fs,), r),
        r is Ok,
    ensures
        tours(told_by(fs), tour.0, tour.1),
        tour.1.len() == r->Ok_0@.len(),
        forall|i: int| 0 <= i < tour.1.len() ==> holds_found(#[trigger] r->Ok_0@[i], tour.1[i]),
{
    let found = nodes(r->Ok_0@);
    assert(told_by(fs) =~= answers(fs));
    (a_walk_is_a_tour(told_by(fs), found), found)
}

} // verus!
