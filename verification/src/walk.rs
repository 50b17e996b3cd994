//! The recursive enumeration of a mounted filesystem.
//!
//! A walk keeps a stack of directories still to be listed. [`walks`] states it over
//! what the filesystem may answer: the directories are listed one by one, the one
//! found last first, each at most once and none deeper than [`WALK_MAX_DEPTH`].

use vstd::prelude::*;

use forensicnomicon_core::FileId;

use crate::error::{VfsError, VfsResult};
use crate::fs::{DirEntry, DirStream, FileSystem, FsMeta, NodeKind};
use crate::pathspec::{clone_components, components};

verus! {

broadcast use vstd::seq::group_seq_axioms;

/// A directory this many levels below the root is still listed, a deeper one is not.
pub const WALK_MAX_DEPTH: usize = 256;

/// One node found by [`walk`].
pub struct WalkEntry {
    /// Path components from the root, each a raw filesystem name.
    pub path: Vec<Vec<u8>>,
    /// The node's filesystem-specific id.
    pub id: FileId,
    /// The node's forensic metadata.
    pub meta: FsMeta,
}

/// What a [`WalkEntry`] holds.
pub struct Found {
    pub path: Seq<Seq<u8>>,
    pub id: FileId,
    pub meta: FsMeta,
}

impl View for WalkEntry {
    type V = Found;

    open spec fn view(&self) -> Found {
        Found { path: components(self.path@), id: self.id, meta: self.meta }
    }
}

/// The nodes of a list of entries.
pub open spec fn nodes(v: Seq<WalkEntry>) -> Seq<Found> {
    Seq::new(v.len(), |i: int| v[i]@)
}

/// A directory still to be listed.
struct Pending {
    path: Vec<Vec<u8>>,
    id: FileId,
    depth: usize,
}

/// What a directory still to be listed is known by.
pub struct Frame {
    pub path: Seq<Seq<u8>>,
    pub id: FileId,
    pub depth: nat,
}

spec fn frames(v: Seq<Pending>) -> Seq<Frame> {
    Seq::new(
        v.len(),
        |i: int| Frame { path: components(v[i].path@), id: v[i].id, depth: v[i].depth as nat },
    )
}

/// The nodes found so far and the directories still to be listed.
pub struct Progress {
    pub found: Seq<Found>,
    pub stack: Seq<Frame>,
}

/// The entry of a directory for itself or for its parent.
pub open spec fn is_dot(name: Seq<u8>) -> bool {
    name == seq!['.' as u8] || name == seq!['.' as u8, '.' as u8]
}

/// What a filesystem may answer to the questions of a walk.
#[verifier::ext_equal]
pub struct Answers {
    pub root: spec_fn(FileId) -> bool,
    pub read_dir: spec_fn(FileId, VfsResult<DirStream>) -> bool,
    pub meta: spec_fn(FileId, VfsResult<FsMeta>) -> bool,
}

/// What `fs` may answer.
pub open spec fn answers<F: FileSystem + ?Sized>(fs: &F) -> Answers {
    Answers {
        root: |id: FileId| fs.may_root(id),
        read_dir: |id: FileId, r: VfsResult<DirStream>| fs.may_read_dir(id, r),
        meta: |id: FileId, r: VfsResult<FsMeta>| fs.may_meta(id, r),
    }
}

/// These are the answers that `fs` may give.
pub open spec fn are_answers<F: FileSystem + ?Sized>(a: Answers, fs: &F) -> bool {
    &&& forall|id: FileId| #[trigger] (a.root)(id) == fs.may_root(id)
    &&& forall|id: FileId, r: VfsResult<DirStream>| #[trigger]
        (a.read_dir)(id, r) == fs.may_read_dir(id, r)
    &&& forall|id: FileId, r: VfsResult<FsMeta>| #[trigger] (a.meta)(id, r) == fs.may_meta(id, r)
}

/// The progress once an entry of the directory `dir` has been added.
pub open spec fn add_entry(p: Progress, dir: Frame, entry: DirEntry, meta: FsMeta) -> Progress {
    let path = dir.path.push(entry.name@);
    Progress {
        found: p.found.push(Found { path, id: entry.id, meta }),
        stack: if meta.kind == NodeKind::Dir {
            p.stack.push(Frame { path, id: entry.id, depth: dir.depth + 1 })
        } else {
            p.stack
        },
    }
}

/// Adding the entries `items` of the directory `dir` may lead from `p` to `r`. Every
/// item is read: nothing follows them (`done`), unless the last one failed or the
/// metadata of its node did.
pub open spec fn lists(
    fs: Answers,
    dir: Frame,
    items: Seq<VfsResult<DirEntry>>,
    done: bool,
    p: Progress,
    r: VfsResult<Progress>,
) -> bool
    decreases items.len(),
{
    if items.len() == 0 {
        done && r == Ok::<Progress, VfsError>(p)
    } else {
        match items[0] {
            Err(e) => items.len() == 1 && r == Err::<Progress, VfsError>(e),
            Ok(entry) => if is_dot(entry.name@) {
                lists(fs, dir, items.skip(1), done, p, r)
            } else {
                exists|m: VfsResult<FsMeta>| #[trigger]
                    (fs.meta)(entry.id, m) && match m {
                        Err(e) => items.len() == 1 && r == Err::<Progress, VfsError>(
                            e,
                        ),
                        Ok(meta) => lists(
                            fs,
                            dir,
                            items.skip(1),
                            done,
                            add_entry(p, dir, entry, meta),
                            r,
                        ),
                    }
            },
        }
    }
}

/// Listing the directory `dir` may lead from `p` to `r`.
pub open spec fn lists_dir(
    fs: Answers,
    dir: Frame,
    p: Progress,
    r: VfsResult<Progress>,
) -> bool {
    exists|opened: VfsResult<DirStream>| #[trigger]
        (fs.read_dir)(dir.id, opened) && match opened {
            Err(e) => r == Err::<Progress, VfsError>(e),
            Ok(stream) => exists|items: Seq<VfsResult<DirEntry>>, done: bool| #[trigger]
                stream.may_yield(items, done) && lists(fs, dir, items, done, p, r),
        }
}

/// In `steps` steps the walk may go on from `p` to the result `r`, when the
/// directories `visited` have been listed.
pub open spec fn walks(
    fs: Answers,
    visited: Seq<FileId>,
    p: Progress,
    steps: nat,
    r: VfsResult<Seq<Found>>,
) -> bool
    decreases steps,
{
    if p.stack.len() == 0 {
        steps == 0 && r == Ok::<Seq<Found>, VfsError>(p.found)
    } else if steps == 0 {
        false
    } else {
        let dir = p.stack.last();
        let popped = Progress { stack: p.stack.drop_last(), ..p };
        if dir.depth > WALK_MAX_DEPTH || visited.contains(dir.id) {
            walks(fs, visited, popped, (steps - 1) as nat, r)
        } else {
            exists|listed: VfsResult<Progress>| #[trigger]
                lists_dir(fs, dir, popped, listed) && match listed {
                    Err(e) => steps == 1 && r == Err::<Seq<Found>, VfsError>(e),
                    Ok(q) => walks(fs, visited.push(dir.id), q, (steps - 1) as nat, r),
                }
        }
    }
}

/// Where a walk from the directory `root` begins.
pub open spec fn start(root: FileId) -> Progress {
    Progress {
        found: Seq::empty(),
        stack: seq![Frame { path: Seq::empty(), id: root, depth: 0 }],
    }
}

/// The result of a walk, by its contents.
pub open spec fn walk_result(r: VfsResult<Vec<WalkEntry>>) -> VfsResult<Seq<Found>> {
    match r {
        Ok(v) => Ok(nodes(v@)),
        Err(e) => Err(e),
    }
}

/// The walk of a filesystem that may give these answers may come to `r`.
pub open spec fn walk_may_give(fs: Answers, r: VfsResult<Seq<Found>>) -> bool {
    exists|root: FileId, steps: nat|
        (fs.root)(root) && #[trigger] walks(fs, Seq::empty(), start(root), steps, r)
}

// ---------------------------------------------------------------------------
// Listed directories
// ---------------------------------------------------------------------------

/// The two ids name the same node.
pub fn same_id(a: FileId, b: FileId) -> (r: bool)
    ensures
        r == (a == b),
{
    match (a, b) {
        (FileId::NtfsRef { entry, seq }, FileId::NtfsRef { entry: e, seq: s }) => {
            entry == e && seq == s
        },
        (FileId::ExtInode { ino, gen }, FileId::ExtInode { ino: i, gen: g }) => {
            ino == i && gen == g
        },
        (FileId::ApfsOid { oid, xid }, FileId::ApfsOid { oid: o, xid: x }) => {
            oid == o && xid == x
        },
        (
            FileId::FatDirEntry { cluster, index },
            FileId::FatDirEntry { cluster: c, index: i },
        ) => { cluster == c && index == i },
        (FileId::IsoExtent { block }, FileId::IsoExtent { block: b }) => block == b,
        (FileId::Opaque(n), FileId::Opaque(m)) => n == m,
        _ => false,
    }
}

fn holds(ids: &Vec<FileId>, id: FileId) -> (r: bool)
    ensures
        r == ids@.contains(id),
{
    let mut i: usize = 0;
    while i < ids.len()
        invariant
            0 <= i <= ids.len(),
            forall|k: int| 0 <= k < i ==> ids@[k] != id,
        decreases ids.len() - i,
    {
        if same_id(ids[i], id) {
            assert(ids@[i as int] == id);
            return true;
        }
        i = i + 1;
    }
    false
}

fn is_dot_name(name: &Vec<u8>) -> (r: bool)
    ensures
        r == is_dot(name@),
{
    let n: usize = name.len();
    let r = (n == 1 && name[0] == 0x2e) || (n == 2 && name[0] == 0x2e && name[1] == 0x2e);
    proof {
        if r {
            assert(name@ =~= seq!['.' as u8] || name@ =~= seq!['.' as u8, '.' as u8]);
        }
    }
    r
}

/// A number for each id, below [`id_count`] and of its own.
spec fn id_number(id: FileId) -> int {
    match id {
        FileId::NtfsRef { entry, seq } => pair_number(0, entry as int, seq as int),
        FileId::ExtInode { ino, gen } => pair_number(1, ino as int, gen as int),
        FileId::ApfsOid { oid, xid } => pair_number(2, oid as int, xid as int),
        FileId::FatDirEntry { cluster, index } => pair_number(3, cluster as int, index as int),
        FileId::IsoExtent { block } => pair_number(4, block as int, 0),
        FileId::Opaque(n) => pair_number(5, n as int, 0),
        _ => 0,
    }
}

spec fn pair_number(kind: int, a: int, b: int) -> int {
    (kind * 0x1_0000_0000_0000_0000 + a) * 0x1_0000_0000_0000_0000 + b
}

spec fn id_count() -> nat {
    6 * 0x1_0000_0000_0000_0000 * 0x1_0000_0000_0000_0000
}

proof fn lemma_ids_are_finite(ids: Seq<FileId>)
    requires
        ids.no_duplicates(),
    ensures
        ids.len() <= id_count(),
{
    let numbers = ids.map_values(|id: FileId| id_number(id));
    assert forall|i: int, j: int|
        0 <= i < numbers.len() && 0 <= j < numbers.len() && i != j implies numbers[i]
        != numbers[j] by {
        assert(ids[i] != ids[j]);
    }
    assert(numbers.no_duplicates());
    numbers.unique_seq_to_set();
    let all = vstd::set_lib::set_int_range(0, id_count() as int);
    vstd::set_lib::lemma_int_range(0, id_count() as int);
    assert forall|n: int| numbers.to_set().contains(n) implies all.contains(n) by {
        let i = choose|i: int| 0 <= i < numbers.len() && numbers[i] == n;
        assert(n == id_number(ids[i]));
    }
    vstd::set_lib::lemma_len_subset(numbers.to_set(), all);
}

// ---------------------------------------------------------------------------
// The walk
// ---------------------------------------------------------------------------

spec fn progress(found: Seq<WalkEntry>, stack: Seq<Pending>) -> Progress {
    Progress { found: nodes(found), stack: frames(stack) }
}

proof fn lemma_progress_push(
    found: Seq<WalkEntry>,
    stack: Seq<Pending>,
    dir: Frame,
    entry: DirEntry,
    e: WalkEntry,
    below: Option<Pending>,
)
    requires
        components(e.path@) == dir.path.push(entry.name@),
        e.id == entry.id,
        below is Some <==> e.meta.kind == NodeKind::Dir,
        below matches Some(b) ==> {
            &&& components(b.path@) == dir.path.push(entry.name@)
            &&& b.id == entry.id
            &&& b.depth == dir.depth + 1
        },
    ensures
        progress(
            found.push(e),
            match below {
                Some(b) => stack.push(b),
                None => stack,
            },
        ) == add_entry(progress(found, stack), dir, entry, e.meta),
{
    let q = add_entry(progress(found, stack), dir, entry, e.meta);
    assert(nodes(found.push(e)) =~= q.found);
    match below {
        Some(b) => assert(frames(stack.push(b)) =~= q.stack),
        None => {},
    }
}

/// The listing of a directory by [`list_dir`], by its contents.
spec fn listing(r: VfsResult<()>, found: Seq<WalkEntry>, stack: Seq<Pending>) -> VfsResult<
    Progress,
> {
    match r {
        Ok(_) => Ok(progress(found, stack)),
        Err(e) => Err(e),
    }
}

proof fn lemma_lists_dir(
    fs: Answers,
    dir: Frame,
    p: Progress,
    r: VfsResult<Progress>,
    opened: VfsResult<DirStream>,
    items: Seq<VfsResult<DirEntry>>,
    done: bool,
)
    requires
        (fs.read_dir)(dir.id, opened),
        opened is Ok,
        opened->Ok_0.may_yield(items, done),
        lists(fs, dir, items, done, p, r),
    ensures
        lists_dir(fs, dir, p, r),
{
}

/// What may still come of `stream`, from `now` on, may come of the whole listing of
/// `first`, from `before` on, once `pulled` has been read.
spec fn goes_on(
    fs: Answers,
    dir: Frame,
    stream: DirStream,
    now: Progress,
    first: DirStream,
    pulled: Seq<VfsResult<DirEntry>>,
    before: Progress,
) -> bool {
    forall|items: Seq<VfsResult<DirEntry>>, done: bool, r: VfsResult<Progress>| #[trigger]
        stream.may_yield(items, done) && #[trigger] lists(fs, dir, items, done, now, r)
            ==> first.may_yield(pulled + items, done) && lists(
            fs,
            dir,
            pulled + items,
            done,
            before,
            r,
        )
}

/// One more item, which leads from `now` to `then`.
proof fn lemma_goes_on(
    fs: Answers,
    dir: Frame,
    stream: DirStream,
    now: Progress,
    first: DirStream,
    pulled: Seq<VfsResult<DirEntry>>,
    before: Progress,
    item: VfsResult<DirEntry>,
    rest: DirStream,
    then: Progress,
)
    requires
        goes_on(fs, dir, stream, now, first, pulled, before),
        forall|items: Seq<VfsResult<DirEntry>>, done: bool| #[trigger]
            rest.may_yield(items, done) ==> stream.may_yield(seq![item] + items, done),
        forall|items: Seq<VfsResult<DirEntry>>, done: bool, r: VfsResult<Progress>| #[trigger]
            lists(fs, dir, items, done, then, r) ==> lists(
                fs,
                dir,
                seq![item] + items,
                done,
                now,
                r,
            ),
    ensures
        goes_on(fs, dir, rest, then, first, pulled.push(item), before),
{
    assert forall|items: Seq<VfsResult<DirEntry>>, done: bool, r: VfsResult<Progress>| #[trigger]
        rest.may_yield(items, done) && #[trigger] lists(
            fs,
            dir,
            items,
            done,
            then,
            r,
        ) implies first.may_yield(pulled.push(item) + items, done) && lists(
        fs,
        dir,
        pulled.push(item) + items,
        done,
        before,
        r,
    ) by {
        let longer = seq![item] + items;
        assert(stream.may_yield(longer, done));
        assert(lists(fs, dir, longer, done, now, r));
        assert(pulled + longer =~= pulled.push(item) + items);
    }
}

/// The listing ends with the item that was just read, and with the failure `e`.
proof fn lemma_fails(
    fs: Answers,
    dir: Frame,
    opened: VfsResult<DirStream>,
    stream: DirStream,
    now: Progress,
    pulled: Seq<VfsResult<DirEntry>>,
    before: Progress,
    item: VfsResult<DirEntry>,
    rest: DirStream,
    e: VfsError,
)
    requires
        (fs.read_dir)(dir.id, opened),
        opened is Ok,
        goes_on(fs, dir, stream, now, opened->Ok_0, pulled, before),
        rest.may_yield(Seq::empty(), false),
        forall|items: Seq<VfsResult<DirEntry>>, done: bool| #[trigger]
            rest.may_yield(items, done) ==> stream.may_yield(seq![item] + items, done),
        lists(fs, dir, seq![item], false, now, Err(e)),
    ensures
        lists_dir(fs, dir, before, Err(e)),
{
    let none = Seq::<VfsResult<DirEntry>>::empty();
    let one = seq![item];
    assert(one + none =~= one);
    assert(stream.may_yield(one, false));
    lemma_lists_dir(fs, dir, before, Err(e), opened, pulled + one, false);
}

/// List one directory: add its entries to `found` and the directories among them to
/// `stack`.
fn list_dir<F: FileSystem + ?Sized>(
    fs: &F,
    dir: &Pending,
    found: &mut Vec<WalkEntry>,
    stack: &mut Vec<Pending>,
) -> (r: VfsResult<()>)
    requires
        dir.depth <= WALK_MAX_DEPTH,
    ensures
        lists_dir(
            answers(fs),
            Frame { path: components(dir.path@), id: dir.id, depth: dir.depth as nat },
            progress(old(found)@, old(stack)@),
            listing(r, final(found)@, final(stack)@),
        ),
{
    let ghost a = answers(fs);
    let ghost frame = Frame {
        path: components(dir.path@),
        id: dir.id,
        depth: dir.depth as nat,
    };
    let ghost before = progress(found@, stack@);
    let opened = fs.read_dir(dir.id);
    let ghost answer = opened;
    assert((a.read_dir)(frame.id, answer));
    let mut stream = match opened {
        Err(e) => {
            assert(lists_dir(a, frame, before, Err(e)));
            return Err(e);
        },
        Ok(s) => s,
    };
    let ghost mut pulled: Seq<VfsResult<DirEntry>> = Seq::empty();
    proof {
        assert forall|items: Seq<VfsResult<DirEntry>>| #[trigger] (pulled + items) == items by {
            assert(pulled + items =~= items);
        }
    }
    loop
        invariant
            dir.depth <= WALK_MAX_DEPTH,
            a == answers(fs),
            frame == (Frame {
                path: components(dir.path@),
                id: dir.id,
                depth: dir.depth as nat,
            }),
            before == progress(old(found)@, old(stack)@),
            (a.read_dir)(frame.id, answer),
            answer is Ok,
            goes_on(a, frame, stream, progress(found@, stack@), answer->Ok_0, pulled, before),
        decreases stream.bound(),
    {
        let ghost held = stream;
        let ghost now = progress(found@, stack@);
        match stream.next() {
            None => {
                proof {
                    let none = Seq::<VfsResult<DirEntry>>::empty();
                    let r = Ok::<Progress, VfsError>(now);
                    assert(held.may_yield(none, true));
                    assert(lists(a, frame, none, true, now, r));
                    lemma_lists_dir(a, frame, before, r, answer, pulled + none, true);
                }
                return Ok(());
            },
            Some(Err(e)) => {
                proof {
                    let item = Err::<DirEntry, VfsError>(e);
                    lemma_fails(a, frame, answer, held, now, pulled, before, item, stream, e);
                }
                return Err(e);
            },
            Some(Ok(entry)) => {
                let ghost item = Ok::<DirEntry, VfsError>(entry);
                proof {
                    assert forall|items: Seq<VfsResult<DirEntry>>| #[trigger] (seq![item]
                        + items).skip(1) == items by {
                        assert((seq![item] + items).skip(1) =~= items);
                    }
                }
                if is_dot_name(&entry.name) {
                    proof {
                        lemma_goes_on(
                            a,
                            frame,
                            held,
                            now,
                            answer->Ok_0,
                            pulled,
                            before,
                            item,
                            stream,
                            now,
                        );
                        pulled = pulled.push(item);
                    }
                    continue ;
                }
                let ghost whole = entry;
                let id = entry.id;
                let mut path = clone_components(&dir.path);
                path.push(entry.name);
                assert(components(path@) =~= frame.path.push(whole.name@));
                let answered = fs.meta(id);
                let ghost m = answered;
                assert((a.meta)(whole.id, m));
                match answered {
                    Err(e) => {
                        proof {
                            lemma_fails(
                                a,
                                frame,
                                answer,
                                held,
                                now,
                                pulled,
                                before,
                                item,
                                stream,
                                e,
                            );
                        }
                        return Err(e);
                    },
                    Ok(meta) => {
                        let is_dir = match meta.kind {
                            NodeKind::Dir => true,
                            _ => false,
                        };
                        let found_path = clone_components(&path);
                        let node = WalkEntry { path: found_path, id, meta };
                        let ghost earlier = (found@, stack@);
                        let ghost mut below: Option<Pending> = None;
                        found.push(node);
                        if is_dir {
                            let next = Pending { path, id, depth: dir.depth + 1 };
                            proof {
                                below = Some(next);
                            }
                            stack.push(next);
                        }
                        proof {
                            lemma_progress_push(
                                earlier.0,
                                earlier.1,
                                frame,
                                whole,
                                node,
                                below,
                            );
                            lemma_goes_on(
                                a,
                                frame,
                                held,
                                now,
                                answer->Ok_0,
                                pulled,
                                before,
                                item,
                                stream,
                                progress(found@, stack@),
                            );
                            pulled = pulled.push(item);
                        }
                    },
                }
            },
        }
    }
}

/// Enumerate every node of a mounted filesystem from the root. Depth-capped, and
/// guarded against directory loops; the entries `.` and `..` are skipped. The first
/// failure of a listing, of an entry or of a node's metadata ends the walk.
///
/// [`walk_from_root`] on a trait object; it takes any filesystem, and says what may come
/// back in terms of the [`answers`] of that filesystem.
pub fn walk(fs: &dyn FileSystem) -> (r: VfsResult<Vec<WalkEntry>>)
    ensures
        forall|a: Answers|
            are_answers(a, fs) ==> #[trigger] walk_may_give(a, walk_result(r)),
{
    let r = walk_from_root(fs);
    proof {
        assert forall|a: Answers| are_answers(a, fs) implies #[trigger] walk_may_give(
            a,
            walk_result(r),
        ) by {
            assert(a =~= answers(fs));
        }
    }
    r
}

/// Enumerate every node of a filesystem of any type from its root, as [`walk`] does.
pub fn walk_from_root<F: FileSystem + ?Sized>(fs: &F) -> (r: VfsResult<Vec<WalkEntry>>)
    ensures
        walk_may_give(answers(fs), walk_result(r)),
{
    let ghost a = answers(fs);
    let mut found: Vec<WalkEntry> = Vec::new();
    let mut visited: Vec<FileId> = Vec::new();
    let mut stack: Vec<Pending> = Vec::new();
    let root = fs.root();
    stack.push(Pending { path: Vec::new(), id: root, depth: 0 });
    let ghost mut steps: nat = 0;
    proof {
        assert(components(stack@[0].path@) =~= Seq::empty());
        assert(nodes(found@) =~= Seq::empty());
        assert(frames(stack@) =~= start(root).stack);
        assert(visited@ =~= Seq::empty());
    }
    loop
        invariant
            a == answers(fs),
            (a.root)(root),
            visited@.no_duplicates(),
            forall|n: nat, r: VfsResult<Seq<Found>>| #[trigger]
                walks(a, visited@, progress(found@, stack@), n, r) ==> walks(
                    a,
                    Seq::empty(),
                    start(root),
                    n + steps,
                    r,
                ),
        decreases id_count() - visited.len(), stack.len(),
    {
        let ghost now = progress(found@, stack@);
        let ghost seen = visited@;
        proof {
            lemma_ids_are_finite(visited@);
        }
        match stack.pop() {
            None => {
                assert(walks(a, seen, now, 0, Ok(nodes(found@))));
                return Ok(found);
            },
            Some(dir) => {
                let ghost popped = progress(found@, stack@);
                let ghost frame = Frame {
                    path: components(dir.path@),
                    id: dir.id,
                    depth: dir.depth as nat,
                };
                proof {
                    assert(now.stack.last() == frame);
                    assert(popped.stack =~= now.stack.drop_last());
                    steps = steps + 1;
                }
                if dir.depth > WALK_MAX_DEPTH || holds(&visited, dir.id) {
                    assert forall|n: nat, r: VfsResult<Seq<Found>>| #[trigger]
                        walks(a, seen, popped, n, r) implies walks(
                        a,
                        Seq::empty(),
                        start(root),
                        n + steps,
                        r,
                    ) by {
                        assert(walks(a, seen, now, n + 1, r));
                    }
                    continue ;
                }
                visited.push(dir.id);
                proof {
                    lemma_ids_are_finite(visited@);
                }
                match list_dir(fs, &dir, &mut found, &mut stack) {
                    Err(e) => {
                        assert(lists_dir(a, frame, popped, Err(e)));
                        assert(walks(a, seen, now, 1, Err(e)));
                        return Err(e);
                    },
                    Ok(_) => {
                        let ghost after = progress(found@, stack@);
                        assert(lists_dir(a, frame, popped, Ok(after)));
                        assert forall|n: nat, r: VfsResult<Seq<Found>>| #[trigger]
                            walks(a, visited@, after, n, r) implies walks(
                            a,
                            Seq::empty(),
                            start(root),
                            n + steps,
                            r,
                        ) by {
                            assert(walks(a, seen, now, n + 1, r));
                        }
                    },
                }
            },
        }
    }
}

} // verus!
