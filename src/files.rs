//! The tree of files that a torrent holds, built from its path lists.
use vstd::prelude::*;

verus! {

broadcast use {
    vstd::std_specs::vec::axiom_vec_index_decreases,
    vstd::std_specs::vec::axiom_vec_decreases_to_view,
    vstd::seq::axiom_seq_index_decreases,
    vstd::seq::axiom_seq_subrange_decreases,
};

#[derive(Debug)]
pub struct FileEntry {
    pub name: String,
    pub kind: FileKind,
}

#[derive(Debug)]
pub enum FileKind {
    File,
    Directory { children: Vec<FileEntry> },
}

/// A path segment that would go under a file.
#[derive(Clone, Copy, Debug, PartialEq, Eq)]
pub struct NotADirectory;

/// The first of `children[0..n]` named `name`, or -1.
pub open spec fn position_of(children: Seq<FileEntry>, name: Seq<char>, n: int) -> int
    decreases n,
{
    if n <= 0 {
        -1
    } else {
        let p = position_of(children, name, n - 1);
        if p >= 0 {
            p
        } else if children[n - 1].name@ == name {
            n - 1
        } else {
            -1
        }
    }
}

/// What `path` leads to from `e`, following the first child of each name:
/// `Some(true)` for a file, `Some(false)` for a directory, `None` for nothing.
pub open spec fn find(e: FileEntry, path: Seq<Seq<char>>) -> Option<bool>
    decreases path.len(),
{
    if path.len() == 0 {
        Some(e.kind is File)
    } else {
        match e.kind {
            FileKind::File => None,
            FileKind::Directory { children } => {
                let j = position_of(children@, path[0], children@.len() as int);
                if 0 <= j < children@.len() {
                    find(children@[j], path.drop_first())
                } else {
                    None
                }
            },
        }
    }
}

pub open spec fn names(path: Seq<String>) -> Seq<Seq<char>> {
    path.map_values(|s: String| s@)
}

/// Some proper prefix of `path` leads to a file.
pub open spec fn blocked(e: FileEntry, path: Seq<Seq<char>>) -> bool {
    exists|k: int| 0 <= k < path.len() && #[trigger] find(e, path.take(k)) == Some(true)
}

/// `n` is a chain made for `s`: named `s[0]`, a file where `s` ends, else a
/// directory whose one child is the chain for the rest of `s`.
pub open spec fn created(n: FileEntry, s: Seq<Seq<char>>) -> bool
    decreases s.len(),
{
    &&& s.len() > 0
    &&& n.name@ == s[0]
    &&& if s.len() == 1 {
        n.kind is File
    } else {
        match n.kind {
            FileKind::Directory { children } => children@.len() == 1 && created(
                children@[0],
                s.drop_first(),
            ),
            FileKind::File => false,
        }
    }
}

/// `n` is `o` with path `s` added: along the segments that exist, the first
/// child of each name is followed and the others stay as they were; at the
/// first segment that does not exist, the chain for the rest of `s` is
/// appended after the existing children. A path that exists leaves `o` as it
/// is.
pub open spec fn grown(o: FileEntry, n: FileEntry, s: Seq<Seq<char>>) -> bool
    decreases s.len(),
{
    if s.len() == 0 {
        n == o
    } else {
        &&& n.name == o.name
        &&& match o.kind {
            FileKind::Directory { children: oc } => match n.kind {
                FileKind::Directory { children: nc } => {
                    let j = position_of(oc@, s[0], oc@.len() as int);
                    if 0 <= j < oc@.len() {
                        &&& nc@.len() == oc@.len()
                        &&& forall|m: int| 0 <= m < oc@.len() && m != j ==> #[trigger] nc@[m] == oc@[m]
                        &&& grown(oc@[j], nc@[j], s.drop_first())
                    } else {
                        &&& nc@.len() == oc@.len() + 1
                        &&& forall|m: int| 0 <= m < oc@.len() ==> #[trigger] nc@[m] == oc@[m]
                        &&& created(nc@[oc@.len() as int], s)
                    }
                },
                FileKind::File => false,
            },
            FileKind::File => false,
        }
    }
}

/// A path that leads somewhere is already grown.
proof fn lemma_grown_self(o: FileEntry, s: Seq<Seq<char>>)
    requires
        find(o, s) is Some,
    ensures
        grown(o, o, s),
    decreases s.len(),
{
    if s.len() > 0 {
        match o.kind {
            FileKind::Directory { children } => {
                let j = position_of(children@, s[0], children@.len() as int);
                lemma_grown_self(children@[j], s.drop_first());
            },
            FileKind::File => {},
        }
    }
}

/// Every proper prefix of a path that leads somewhere leads to a directory.
proof fn lemma_prefix_of_found(o: FileEntry, s: Seq<Seq<char>>, k: int)
    requires
        find(o, s) is Some,
        0 <= k < s.len(),
    ensures
        find(o, s.take(k)) == Some(false),
    decreases s.len(),
{
    match o.kind {
        FileKind::Directory { children } => {
            if k > 0 {
                let j = position_of(children@, s[0], children@.len() as int);
                lemma_take_step(s, k - 1);
                assert(s.take(k)[0] == s[0]);
                lemma_prefix_of_found(children@[j], s.drop_first(), k - 1);
            }
        },
        FileKind::File => {},
    }
}

proof fn lemma_position_bounds(children: Seq<FileEntry>, name: Seq<char>, n: int)
    requires
        0 <= n <= children.len(),
    ensures
        -1 <= position_of(children, name, n) < n,
        position_of(children, name, n) >= 0 ==> children[position_of(children, name, n)].name@
            == name,
        position_of(children, name, n) == -1 ==> forall|i: int|
            0 <= i < n ==> #[trigger] children[i].name@ != name,
    decreases n,
{
    if n > 0 {
        lemma_position_bounds(children, name, n - 1);
    }
}

/// Replacing or appending children keeps the first position of a name as
/// long as the names before it stay.
proof fn lemma_position_same(a: Seq<FileEntry>, b: Seq<FileEntry>, name: Seq<char>, n: int)
    requires
        0 <= n <= a.len(),
        n <= b.len(),
        forall|i: int| 0 <= i < n ==> #[trigger] a[i].name@ == b[i].name@,
    ensures
        position_of(a, name, n) == position_of(b, name, n),
    decreases n,
{
    if n > 0 {
        lemma_position_same(a, b, name, n - 1);
    }
}

proof fn lemma_same_head_tail(q: Seq<Seq<char>>, s: Seq<Seq<char>>)
    requires
        q.len() > 0,
        s.len() > 0,
        q[0] == s[0],
        q.drop_first() == s.drop_first(),
    ensures
        q == s,
{
    assert(q.len() == q.drop_first().len() + 1 && s.len() == s.drop_first().len() + 1);
    assert forall|x: int| 0 <= x < q.len() implies q[x] == s[x] by {
        if x > 0 {
            assert(q[x] == q.drop_first()[x - 1]);
            assert(s[x] == s.drop_first()[x - 1]);
        }
    }
    assert(q =~= s);
}

proof fn lemma_take_step(s: Seq<Seq<char>>, k: int)
    requires
        0 <= k < s.len(),
    ensures
        s.take(k + 1).drop_first() =~= s.drop_first().take(k),
        s.take(k + 1)[0] == s[0],
{
}

impl FileEntry {
    /// An empty directory.
    pub fn new(base_path: &str) -> (r: FileEntry)
        ensures
            r.name@ == base_path@,
            r.kind matches FileKind::Directory { children } && children@.len() == 0,
    {
        FileEntry { name: String::from_str(base_path), kind: FileKind::Directory { children: Vec::new() } }
    }

    /// Adds a file's path, creating the directories on the way; the last
    /// segment of a path that is not there yet becomes a file, and new entries
    /// go after the existing children. Fails, and changes nothing, where a
    /// segment would go under a file.
    pub fn insert_path(&mut self, path: &[String]) -> (r: Result<(), NotADirectory>)
        ensures
            r is Err <==> blocked(*old(self), names(path@)),
            r is Err ==> *final(self) == *old(self),
            find(*old(self), names(path@)) is Some ==> *final(self) == *old(self),
            r is Ok ==> grown(*old(self), *final(self), names(path@)),
            r is Ok ==> find(*final(self), names(path@)) is Some,
            r is Ok ==> forall|k: int|
                0 <= k < path@.len() ==> #[trigger] find(*final(self), names(path@).take(k))
                    == Some(false),
            forall|q: Seq<Seq<char>>|
                (#[trigger] find(*old(self), q)) is Some ==> find(*final(self), q) == find(
                    *old(self),
                    q,
                ),
            forall|q: Seq<Seq<char>>|
                #[trigger] find(*final(self), q) == Some(true) ==> find(*old(self), q) == Some(true)
                    || q == names(path@),
            final(self).name == old(self).name,
    {
        let ghost p = names(path@);
        assert(p.skip(0) =~= p);
        if self.is_blocked(path, 0) {
            return Err(NotADirectory);
        }
        if self.lookup(path, 0).is_some() {
            proof {
                lemma_grown_self(*self, p);
                assert(forall|k: int| 0 <= k < path@.len() ==> #[trigger] find(*self, p.take(k)) == Some(false)) by {
                    assert forall|k: int| 0 <= k < path@.len() implies #[trigger] find(*self, p.take(k)) == Some(false) by {
                        lemma_prefix_of_found(*self, p, k);
                    }
                }
            }
            return Ok(());
        }
        self.insert_from(path, 0)
    }

    /// What `path[i..]` leads to from here.
    fn lookup(&self, path: &[String], i: usize) -> (r: Option<bool>)
        requires
            i <= path@.len(),
        ensures
            r == find(*self, names(path@).skip(i as int)),
        decreases path@.len() - i,
    {
        let ghost s = names(path@).skip(i as int);
        if i == path.len() {
            return Some(
                match self.kind {
                    FileKind::File => true,
                    _ => false,
                },
            );
        }
        let ghost s1 = names(path@).skip(i as int + 1);
        assert(s.drop_first() =~= s1);
        assert(s[0] == path@[i as int]@);
        match &self.kind {
            FileKind::File => None,
            FileKind::Directory { children } => {
                let ghost name = path@[i as int]@;
                let len = children.len();
                let mut pos: usize = 0;
                while pos < len && !(children[pos].name == path[i])
                    invariant
                        len == children@.len(),
                        i < path@.len(),
                        pos <= len,
                        name == path@[i as int]@,
                        position_of(children@, name, pos as int) == -1,
                    decreases len - pos,
                {
                    pos += 1;
                }
                proof {
                    if pos < len {
                        lemma_position_stable(children@, name, pos as int + 1, len as int);
                    }
                    lemma_position_bounds(children@, name, len as int);
                }
                if pos < len {
                    children[pos].lookup(path, i + 1)
                } else {
                    None
                }
            },
        }
    }

    /// Whether some proper prefix of `path[i..]` leads to a file.
    fn is_blocked(&self, path: &[String], i: usize) -> (r: bool)
        requires
            i <= path@.len(),
        ensures
            r == blocked(*self, names(path@).skip(i as int)),
        decreases path@.len() - i,
    {
        let ghost s = names(path@).skip(i as int);
        if i == path.len() {
            assert(!blocked(*self, s)) by {
                assert(s.len() == 0);
            }
            return false;
        }
        let ghost s1 = names(path@).skip(i as int + 1);
        assert(s.drop_first() =~= s1);
        assert(s[0] == path@[i as int]@);
        assert(find(*self, s.take(0)) == Some(self.kind is File));
        match &self.kind {
            FileKind::File => true,
            FileKind::Directory { children } => {
                let ghost name = path@[i as int]@;
                let len = children.len();
                let mut pos: usize = 0;
                while pos < len && !(children[pos].name == path[i])
                    invariant
                        len == children@.len(),
                        i < path@.len(),
                        pos <= len,
                        name == path@[i as int]@,
                        position_of(children@, name, pos as int) == -1,
                    decreases len - pos,
                {
                    pos += 1;
                }
                proof {
                    if pos < len {
                        lemma_position_stable(children@, name, pos as int + 1, len as int);
                    }
                    lemma_position_bounds(children@, name, len as int);
                }
                if pos < len {
                    let c = &children[pos];
                    let r = c.is_blocked(path, i + 1);
                    proof {
                        if blocked(*c, s1) {
                            let k = choose|k: int| 0 <= k < s1.len() && #[trigger] find(*c, s1.take(k)) == Some(true);
                            lemma_take_step(s, k);
                            assert(find(*self, s.take(k + 1)) == Some(true));
                        }
                        if blocked(*self, s) {
                            let k = choose|k: int| 0 <= k < s.len() && #[trigger] find(*self, s.take(k)) == Some(true);
                            assert(k > 0);
                            lemma_take_step(s, k - 1);
                            assert(find(*c, s1.take(k - 1)) == Some(true));
                        }
                    }
                    r
                } else {
                    assert(!blocked(*self, s)) by {
                        if blocked(*self, s) {
                            let k = choose|k: int| 0 <= k < s.len() && #[trigger] find(*self, s.take(k)) == Some(true);
                            assert(s.take(k)[0] == s[0]);
                        }
                    }
                    false
                }
            },
        }
    }

    fn insert_from(&mut self, path: &[String], i: usize) -> (r: Result<(), NotADirectory>)
        requires
            i <= path@.len(),
        ensures
            r is Err <==> blocked(*old(self), names(path@).skip(i as int)),
            r is Err ==> forall|q: Seq<Seq<char>>|
                #[trigger] find(*final(self), q) == find(*old(self), q),
            r is Ok ==> find(*final(self), names(path@).skip(i as int)) is Some,
            r is Ok ==> forall|k: int|
                0 <= k < path@.len() - i ==> #[trigger] find(
                    *final(self),
                    names(path@).skip(i as int).take(k),
                ) == Some(false),
            forall|q: Seq<Seq<char>>|
                (#[trigger] find(*old(self), q)) is Some ==> find(*final(self), q) == find(
                    *old(self),
                    q,
                ),
            forall|q: Seq<Seq<char>>|
                #[trigger] find(*final(self), q) == Some(true) ==> find(*old(self), q) == Some(true)
                    || q == names(path@).skip(i as int),
            r is Ok ==> grown(*old(self), *final(self), names(path@).skip(i as int)),
            final(self).name == old(self).name,
            final(self).kind is Directory == old(self).kind is Directory,
        decreases path@.len() - i,
    {
        let ghost s = names(path@).skip(i as int);
        let ghost old_self = *self;
        if i == path.len() {
            assert(!blocked(old_self, s)) by {
                assert(s.len() == 0);
            }
            return Ok(());
        }
        let ghost s1 = names(path@).skip(i as int + 1);
        assert(s.drop_first() =~= s1);
        assert(s[0] == path@[i as int]@);
        assert(find(old_self, s.take(0)) == Some(old_self.kind is File));
        match &mut self.kind {
            FileKind::File => Err(NotADirectory),
            FileKind::Directory { children } => {
                let ghost old_children = children@;
                let ghost name = path@[i as int]@;
                let len = children.len();
                let mut pos: usize = 0;
                while pos < len && !(children[pos].name == path[i])
                    invariant
                        len == old_children.len(),
                        children@ == old_children,
                        i < path@.len(),
                        pos <= len,
                        name == path@[i as int]@,
                        position_of(old_children, name, pos as int) == -1,
                    decreases len - pos,
                {
                    pos += 1;
                }
                proof {
                    if pos < len {
                        lemma_position_stable(old_children, name, pos as int + 1, len as int);
                    }
                    lemma_position_bounds(old_children, name, len as int);
                }
                if pos < len {
                    assert(position_of(old_children, name, len as int) == pos);
                    let ghost c = old_children[pos as int];
                    let r = children[pos].insert_from(path, i + 1);
                    proof {
                        let new_children = children@;
                        assert(new_children.len() == old_children.len());
                        lemma_position_same(old_children, new_children, name, len as int);
                        lemma_lift(old_self, *self, old_children, new_children, pos as int);
                        if blocked(c, s1) {
                            let k = choose|k: int| 0 <= k < s1.len() && #[trigger] find(c, s1.take(k)) == Some(true);
                            lemma_take_step(s, k);
                            assert(find(old_self, s.take(k + 1)) == Some(true));
                        }
                        if blocked(old_self, s) {
                            let k = choose|k: int| 0 <= k < s.len() && #[trigger] find(old_self, s.take(k)) == Some(true);
                            assert(k > 0);
                            lemma_take_step(s, k - 1);
                            assert(find(c, s1.take(k - 1)) == Some(true));
                        }
                        if r is Ok {
                            assert forall|k: int| 0 <= k < path@.len() - i implies #[trigger] find(*self, s.take(k)) == Some(false) by {
                                if k > 0 {
                                    lemma_take_step(s, k - 1);
                                    assert(find(children@[pos as int], s1.take(k - 1)) == Some(false));
                                }
                            }
                        }
                        assert(new_children =~= old_children.update(pos as int, new_children[pos as int]));
                        assert forall|m: int| 0 <= m < len && m != pos implies #[trigger] new_children[m] == old_children[m] by {}
                        assert(s[0] == name);
                        assert forall|q: Seq<Seq<char>>| #[trigger] find(*self, q) == Some(true) implies find(old_self, q) == Some(true) || q == s by {
                            if q.len() > 0 && position_of(old_children, q[0], len as int) == pos {
                                lemma_position_bounds(old_children, q[0], len as int);
                                if find(c, q.drop_first()) != Some(true) {
                                    assert(q.drop_first() == s1);
                                    assert(q[0] == old_children[pos as int].name@);
                                    assert(q[0] == s[0]);
                                    lemma_same_head_tail(q, s);
                                }
                            }
                        }
                    }
                    r
                } else {
                    let is_file = i + 1 == path.len();
                    let kind = if is_file {
                        FileKind::File
                    } else {
                        FileKind::Directory { children: Vec::new() }
                    };
                    let entry = FileEntry { name: path[i].clone(), kind };
                    let ghost fresh = entry;
                    proof {
                        assert(!blocked(fresh, s1)) by {
                            if blocked(fresh, s1) {
                                let k = choose|k: int| 0 <= k < s1.len() && #[trigger] find(fresh, s1.take(k)) == Some(true);
                                if k > 0 {
                                    assert(s1.take(k)[0] == s1[0]);
                                }
                            }
                        }
                        assert(!blocked(old_self, s)) by {
                            if blocked(old_self, s) {
                                let k = choose|k: int| 0 <= k < s.len() && #[trigger] find(old_self, s.take(k)) == Some(true);
                                assert(s.take(k)[0] == s[0]);
                            }
                        }
                    }
                    children.push(entry);
                    let ghost pushed = children@;
                    let r = children[len].insert_from(path, i + 1);
                    proof {
                        let new_children = children@;
                        assert(new_children.len() == len + 1);
                        lemma_position_same(old_children, new_children, name, len as int);
                        assert(position_of(new_children, name, len as int + 1) == len);
                        lemma_grow(old_self, *self, old_children, new_children);
                        assert(r is Ok);
                        assert(find(*self, s) == find(new_children[len as int], s1));
                        assert forall|k: int| 0 <= k < path@.len() - i implies #[trigger] find(*self, s.take(k)) == Some(false) by {
                            if k > 0 {
                                lemma_take_step(s, k - 1);
                                assert(find(new_children[len as int], s1.take(k - 1)) == Some(false));
                            }
                        }
                        assert forall|m: int| 0 <= m < len implies #[trigger] new_children[m] == old_children[m] by {
                            assert(new_children[m] == pushed[m]);
                        }
                        assert(s[0] == name);
                        assert(new_children[len as int].name@ == name);
                        if i + 1 == path.len() {
                            assert(s.len() == 1);
                        } else {
                            assert(s.len() > 1);
                            assert(s1.len() > 0);
                        }
                        assert(created(new_children[len as int], s));
                        assert forall|q: Seq<Seq<char>>| #[trigger] find(*self, q) == Some(true) implies find(old_self, q) == Some(true) || q == s by {
                            if q.len() > 0 && position_of(old_children, q[0], len as int) == -1 {
                                if new_children[len as int].name@ == q[0] {
                                    let q1 = q.drop_first();
                                    if find(fresh, q1) == Some(true) {
                                        if q1.len() > 0 {
                                            assert(fresh.kind is Directory);
                                        }
                                    }
                                    assert(q1 == s1);
                                    assert(new_children[len as int].name@ == fresh.name@);
                                    assert(q[0] == s[0]);
                                    lemma_same_head_tail(q, s);
                                }
                            }
                        }
                    }
                    r
                }
            },
        }
    }
}

proof fn lemma_position_stable(children: Seq<FileEntry>, name: Seq<char>, a: int, b: int)
    requires
        0 <= a <= b <= children.len(),
        position_of(children, name, a) >= 0,
    ensures
        position_of(children, name, b) == position_of(children, name, a),
    decreases b - a,
{
    if a < b {
        lemma_position_stable(children, name, a, b - 1);
    }
}

/// A directory whose child `pos` changed, keeping its name, leads along each
/// path where it led before, but through that child.
proof fn lemma_lift(old_e: FileEntry, new_e: FileEntry, a: Seq<FileEntry>, b: Seq<FileEntry>, pos: int)
    requires
        old_e.kind matches FileKind::Directory { children } && children@ == a,
        new_e.kind matches FileKind::Directory { children } && children@ == b,
        a.len() == b.len(),
        0 <= pos < a.len(),
        b == a.update(pos, b[pos]),
        b[pos].name == a[pos].name,
        forall|q: Seq<Seq<char>>| (#[trigger] find(a[pos], q)) is Some ==> find(b[pos], q) == find(a[pos], q),
    ensures
        forall|q: Seq<Seq<char>>| (#[trigger] find(old_e, q)) is Some ==> find(new_e, q) == find(old_e, q),
        (forall|q: Seq<Seq<char>>| #[trigger] find(b[pos], q) == find(a[pos], q)) ==> forall|q: Seq<Seq<char>>|
            #[trigger] find(new_e, q) == find(old_e, q),
        forall|q: Seq<Seq<char>>| q.len() > 0 && position_of(a, q[0], a.len() as int) == pos ==> #[trigger] find(new_e, q) == find(b[pos], q.drop_first()) && find(old_e, q) == find(a[pos], q.drop_first()),
        forall|q: Seq<Seq<char>>| q.len() > 0 && position_of(a, q[0], a.len() as int) != pos ==> #[trigger] find(new_e, q) == find(old_e, q),
        forall|q: Seq<Seq<char>>| q.len() == 0 ==> #[trigger] find(new_e, q) == find(old_e, q),
{
    assert forall|i: int| 0 <= i < a.len() implies #[trigger] a[i].name@ == b[i].name@ by {
        if i != pos {
            assert(b[i] == a[i]);
        }
    }
    assert forall|q: Seq<Seq<char>>| q.len() > 0 implies #[trigger] find(new_e, q) == if position_of(
        a,
        q[0],
        a.len() as int,
    ) == pos {
        find(b[pos], q.drop_first())
    } else {
        find(old_e, q)
    } by {
        lemma_position_same(a, b, q[0], a.len() as int);
        lemma_position_bounds(a, q[0], a.len() as int);
        let j = position_of(a, q[0], a.len() as int);
        if j != pos && 0 <= j {
            assert(b[j] == a[j]);
        }
    }
    assert forall|q: Seq<Seq<char>>| (#[trigger] find(old_e, q)) is Some implies find(new_e, q) == find(old_e, q) by {
        if q.len() > 0 {
            let j = position_of(a, q[0], a.len() as int);
            if j == pos {
                assert(find(old_e, q) == find(a[pos], q.drop_first()));
            }
        }
    }
    if forall|q: Seq<Seq<char>>| #[trigger] find(b[pos], q) == find(a[pos], q) {
        assert forall|q: Seq<Seq<char>>| #[trigger] find(new_e, q) == find(old_e, q) by {
            if q.len() > 0 {
                let j = position_of(a, q[0], a.len() as int);
                if j == pos {
                    assert(find(old_e, q) == find(a[pos], q.drop_first()));
                    assert(find(b[pos], q.drop_first()) == find(a[pos], q.drop_first()));
                }
            }
        }
    }
}

/// A directory that gained a last child keeps leading where it led.
proof fn lemma_grow(old_e: FileEntry, new_e: FileEntry, a: Seq<FileEntry>, b: Seq<FileEntry>)
    requires
        old_e.kind matches FileKind::Directory { children } && children@ == a,
        new_e.kind matches FileKind::Directory { children } && children@ == b,
        b.len() == a.len() + 1,
        forall|i: int| 0 <= i < a.len() ==> #[trigger] b[i] == a[i],
    ensures
        forall|q: Seq<Seq<char>>| (#[trigger] find(old_e, q)) is Some ==> find(new_e, q) == find(old_e, q),
        forall|q: Seq<Seq<char>>| q.len() > 0 && position_of(a, q[0], a.len() as int) == -1 && b[a.len() as int].name@ == q[0] ==> #[trigger] find(new_e, q) == find(b[a.len() as int], q.drop_first()),
        forall|q: Seq<Seq<char>>| q.len() > 0 && position_of(a, q[0], a.len() as int) >= 0 ==> #[trigger] find(new_e, q) == find(old_e, q),
        forall|q: Seq<Seq<char>>| q.len() > 0 && position_of(a, q[0], a.len() as int) == -1 && b[a.len() as int].name@ != q[0] ==> #[trigger] find(new_e, q) is None,
        forall|q: Seq<Seq<char>>| q.len() == 0 ==> #[trigger] find(new_e, q) == find(old_e, q),
{
    assert forall|q: Seq<Seq<char>>| (#[trigger] find(old_e, q)) is Some implies find(new_e, q) == find(old_e, q) by {
        if q.len() > 0 {
            lemma_position_bounds(a, q[0], a.len() as int);
            lemma_position_same(a, b, q[0], a.len() as int);
            let j = position_of(a, q[0], a.len() as int);
            assert(position_of(b, q[0], b.len() as int) == j);
        }
    }
    assert forall|q: Seq<Seq<char>>| q.len() > 0 && position_of(a, q[0], a.len() as int) == -1 && b[a.len() as int].name@ == q[0] implies #[trigger] find(new_e, q) == find(b[a.len() as int], q.drop_first()) by {
        lemma_position_same(a, b, q[0], a.len() as int);
    }
    assert forall|q: Seq<Seq<char>>| q.len() > 0 && position_of(a, q[0], a.len() as int) >= 0 implies #[trigger] find(new_e, q) == find(old_e, q) by {
        lemma_position_bounds(a, q[0], a.len() as int);
        lemma_position_same(a, b, q[0], a.len() as int);
        let j = position_of(a, q[0], a.len() as int);
        lemma_position_stable(b, q[0], a.len() as int, b.len() as int);
    }
    assert forall|q: Seq<Seq<char>>| q.len() > 0 && position_of(a, q[0], a.len() as int) == -1 && b[a.len() as int].name@ != q[0] implies #[trigger] find(new_e, q) is None by {
        lemma_position_same(a, b, q[0], a.len() as int);
    }
}

/// One level deeper; depths stop growing at `usize::MAX`.
pub open spec fn deeper(depth: usize) -> usize {
    if depth < usize::MAX {
        (depth + 1) as usize
    } else {
        depth
    }
}

/// The entries of the tree under `e`, `e` first and each directory's
/// children after it in order, with their depths counted from `depth`.
pub open spec fn flattened(e: FileEntry, depth: usize) -> Seq<(usize, FileEntry)>
    decreases e,
{
    seq![(depth, e)] + match e.kind {
        FileKind::File => Seq::empty(),
        FileKind::Directory { children } => flattened_all(children@, deeper(depth)),
    }
}

/// The entries of each tree in `cs`, one tree after the other.
pub open spec fn flattened_all(cs: Seq<FileEntry>, depth: usize) -> Seq<(usize, FileEntry)>
    decreases cs,
{
    if cs.len() == 0 {
        Seq::empty()
    } else {
        flattened_all(cs.subrange(0, cs.len() - 1), depth) + flattened(cs[cs.len() - 1], depth)
    }
}

pub open spec fn entries_of<'a>(out: Seq<(usize, &'a FileEntry)>) -> Seq<(usize, FileEntry)> {
    out.map_values(|p: (usize, &'a FileEntry)| (p.0, *p.1))
}

/// Appends the entries under `entry`, `entry` first and each directory's
/// children after it, with their depths.
pub fn flatten_all<'a>(entry: &'a FileEntry, depth: usize, out: &mut Vec<(usize, &'a FileEntry)>)
    ensures
        entries_of(final(out)@) == entries_of(old(out)@) + flattened(*entry, depth),
    decreases entry,
{
    let ghost start = out@;
    out.push((depth, entry));
    assert(entries_of(out@) =~= entries_of(start) + seq![(depth, *entry)]);
    match &entry.kind {
        FileKind::File => {
            assert(flattened(*entry, depth) =~= seq![(depth, *entry)]);
        },
        FileKind::Directory { children } => {
            let next = if depth < usize::MAX {
                depth + 1
            } else {
                depth
            };
            let mut i: usize = 0;
            while i < children.len()
                invariant
                    entry.kind matches FileKind::Directory { children: cs } && cs == children,
                    next == deeper(depth),
                    i <= children@.len(),
                    entries_of(out@) == entries_of(start) + seq![(depth, *entry)] + flattened_all(
                        children@.subrange(0, i as int),
                        next,
                    ),
                decreases children@.len() - i,
            {
                let ghost before = out@;
                flatten_all(&children[i], next, out);
                assert(children@.subrange(0, i as int + 1).subrange(0, i as int) =~= children@.subrange(0, i as int));
                i += 1;
            }
            assert(children@.subrange(0, i as int) =~= children@);
        },
    }
}

} // verus!
