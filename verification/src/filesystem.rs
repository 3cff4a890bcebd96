//! Filesystems mounted at paths.
//!
//! A path is a sequence of bytes.  A filesystem is mounted at a path that
//! ends in `/`; a file is looked up in the filesystem with the longest mount
//! point that the path of the file starts with.

use vstd::prelude::*;
use vstd::slice::slice_subrange;

pub mod tarfs;

verus! {

/// The byte `/`.
pub const SEPARATOR: u8 = 0x2f;

/// An open file.
pub trait FileDescriptor {
    /// The bytes of the file.
    spec fn contents(&self) -> Seq<u8>;

    /// Reads the file to its end.
    fn read(&mut self) -> (bytes: Vec<u8>)
        ensures
            bytes@ == old(self).contents(),
            final(self).contents() == old(self).contents(),
    ;
}

/// A filesystem.
pub trait Filesystem {
    type File: FileDescriptor;

    /// The bytes of the file at `path`, where there is one.
    spec fn file(&self, path: Seq<u8>) -> Option<Seq<u8>>;

    /// Opens the file at `path`.
    fn get_file(&self, path: &[u8]) -> (file: Option<Self::File>)
        ensures
            file.is_some() <==> self.file(path@).is_some(),
            file matches Some(f) ==> Some(f.contents()) == self.file(path@),
    ;
}

/// Whether `path` starts with `start`.
pub open spec fn starts_with(path: Seq<u8>, start: Seq<u8>) -> bool {
    start.len() <= path.len() && path.subrange(0, start.len() as int) == start
}

/// Whether `a` comes before `b` in the order of a dictionary: at the first
/// place where they differ `a` has the lower byte, or `a` ends there and `b`
/// goes on.
pub open spec fn comes_before(a: Seq<u8>, b: Seq<u8>) -> bool {
    exists|k: int|
        #![trigger a.subrange(0, k)]
        0 <= k <= a.len() && k <= b.len() && a.subrange(0, k) == b.subrange(0, k) && ((k
            == a.len() && k < b.len()) || (k < a.len() && k < b.len() && a[k] < b[k]))
}

/// Whether the paths of `mounts` ascend in the order of a dictionary.
pub open spec fn sorted(mounts: Seq<Seq<u8>>) -> bool {
    forall|i: int, j: int|
        0 <= i < j < mounts.len() ==> comes_before(#[trigger] mounts[i], #[trigger] mounts[j])
}

/// Whether `path` ends in `/`.
pub open spec fn ends_in_separator(path: Seq<u8>) -> bool {
    path.len() > 0 && path.last() == SEPARATOR
}

/// `path` with a `/` at its end, where it has none.
pub open spec fn normalized(path: Seq<u8>) -> Seq<u8> {
    if path.len() > 0 && path.last() == SEPARATOR {
        path
    } else {
        path.push(SEPARATOR)
    }
}

/// Of two sequences of bytes, at most one comes before the other.
pub proof fn lemma_order_is_one_way(a: Seq<u8>, b: Seq<u8>)
    requires
        comes_before(a, b),
    ensures
        !comes_before(b, a),
        a != b,
{
    let k = choose|k: int|
        #![trigger a.subrange(0, k)]
        0 <= k <= a.len() && k <= b.len() && a.subrange(0, k) == b.subrange(0, k) && ((k
            == a.len() && k < b.len()) || (k < a.len() && k < b.len() && a[k] < b[k]));
    if comes_before(b, a) {
        let m = choose|m: int|
            #![trigger b.subrange(0, m)]
            0 <= m <= b.len() && m <= a.len() && b.subrange(0, m) == a.subrange(0, m) && ((m
                == b.len() && m < a.len()) || (m < b.len() && m < a.len() && b[m] < a[m]));
        if k < m {
            assert(b.subrange(0, m)[k] == a.subrange(0, m)[k]);
        } else if m < k {
            assert(a.subrange(0, k)[m] == b.subrange(0, k)[m]);
        }
    }
    if a == b {
        assert(k < a.len());
    }
}

/// A path comes after every path that it starts with and that is shorter.
pub proof fn lemma_start_comes_before(path: Seq<u8>, start: Seq<u8>)
    requires
        starts_with(path, start),
        start.len() < path.len(),
    ensures
        comes_before(start, path),
{
    let k = start.len() as int;
    assert(start.subrange(0, k) =~= start);
}

/// Of two paths that a third one starts with, the shorter one is a start of
/// the longer one.
pub proof fn lemma_starts_nest(path: Seq<u8>, short: Seq<u8>, long: Seq<u8>)
    requires
        starts_with(path, short),
        starts_with(path, long),
        short.len() <= long.len(),
    ensures
        starts_with(long, short),
{
    assert(long.subrange(0, short.len() as int) =~= short) by {
        assert forall|i: int| 0 <= i < short.len() implies long[i] == short[i] by {
            assert(path.subrange(0, long.len() as int)[i] == long[i]);
            assert(path.subrange(0, short.len() as int)[i] == short[i]);
        }
    }
}

/// A filesystem and the path that it is mounted at.
pub struct Mount<F: Filesystem> {
    pub path: Vec<u8>,
    pub fs: F,
}

/// The filesystems that are mounted, by ascending path.
pub struct VirtualFilesystem<F: Filesystem> {
    mounts: Vec<Mount<F>>,
}

/// How one path lies to another in the order of a dictionary.
#[derive(Debug, Clone, Copy, PartialEq, Eq, Structural)]
pub enum Place {
    Before,
    Same,
    After,
}

/// How `a` lies to `b` in the order of a dictionary.
#[verifier::rlimit(30)]
pub fn place_of(a: &[u8], b: &[u8]) -> (place: Place)
    ensures
        place == Place::Before <==> comes_before(a@, b@),
        place == Place::Same <==> a@ == b@,
        place == Place::After <==> comes_before(b@, a@),
{
    let mut i: usize = 0;
    while i < a.len() && i < b.len()
        invariant
            i <= a@.len(),
            i <= b@.len(),
            a@.subrange(0, i as int) == b@.subrange(0, i as int),
        decreases a@.len() - i,
    {
        if a[i] < b[i] {
            proof {
                lemma_order_is_one_way(a@, b@);
            }
            return Place::Before;
        }
        if a[i] > b[i] {
            proof {
                lemma_order_is_one_way(b@, a@);
            }
            return Place::After;
        }
        assert(a@.subrange(0, i + 1) =~= a@.subrange(0, i as int).push(a@[i as int]));
        assert(b@.subrange(0, i + 1) =~= b@.subrange(0, i as int).push(b@[i as int]));
        i += 1;
    }
    if a.len() < b.len() {
        proof {
            lemma_order_is_one_way(a@, b@);
        }
        Place::Before
    } else if a.len() > b.len() {
        proof {
            lemma_order_is_one_way(b@, a@);
        }
        Place::After
    } else {
        proof {
            assert(a@.subrange(0, i as int) =~= a@);
            assert(b@.subrange(0, i as int) =~= b@);
            if comes_before(a@, b@) {
                lemma_order_is_one_way(a@, b@);
            }
            if comes_before(b@, a@) {
                lemma_order_is_one_way(b@, a@);
            }
        }
        Place::Same
    }
}

/// Whether `path` starts with `start`.
pub fn path_starts_with(path: &[u8], start: &[u8]) -> (starts: bool)
    ensures
        starts == starts_with(path@, start@),
{
    if start.len() > path.len() {
        return false;
    }
    let mut i: usize = 0;
    while i < start.len()
        invariant
            i <= start@.len(),
            start@.len() <= path@.len(),
            path@.subrange(0, i as int) == start@.subrange(0, i as int),
        decreases start@.len() - i,
    {
        if path[i] != start[i] {
            assert(path@.subrange(0, start@.len() as int)[i as int] != start@[i as int]);
            return false;
        }
        assert(path@.subrange(0, i + 1) =~= path@.subrange(0, i as int).push(path@[i as int]));
        assert(start@.subrange(0, i + 1) =~= start@.subrange(0, i as int).push(start@[i as int]));
        i += 1;
    }
    assert(start@.subrange(0, i as int) =~= start@);
    true
}

impl<F: Filesystem> VirtualFilesystem<F> {
    #[verifier::type_invariant]
    spec fn ordered(self) -> bool {
        &&& sorted(self.paths())
        &&& forall|i: int| 0 <= i < self.paths().len() ==> ends_in_separator(#[trigger] self.paths()[i])
    }

    /// The paths at which filesystems are mounted, in ascending order.
    pub closed spec fn paths(&self) -> Seq<Seq<u8>> {
        Seq::new(self.mounts@.len(), |i: int| self.mounts@[i].path@)
    }

    /// The filesystem at place `i` of `paths`.
    pub closed spec fn fs_at(&self, i: int) -> F {
        self.mounts@[i].fs
    }

    /// Nothing is mounted.
    pub fn new() -> (vfs: Self)
        ensures
            vfs.paths() == Seq::<Seq<u8>>::empty(),
    {
        let vfs = VirtualFilesystem { mounts: Vec::new() };
        assert(vfs.paths() =~= Seq::<Seq<u8>>::empty());
        vfs
    }

    /// Mounts `fs` at `path`, with a `/` put at its end where it has none.
    /// A filesystem that was mounted there before gives way.
    #[verifier::rlimit(30)]
    pub fn mount(&mut self, path: &[u8], fs: F)
        ensures
            exists|i: int|
                0 <= i < final(self).paths().len() && #[trigger] final(self).paths()[i]
                    == normalized(path@) && final(self).fs_at(i) == fs,
            forall|other: Seq<u8>|
                final(self).paths().contains(other) <==> old(self).paths().contains(other)
                    || other == normalized(path@),
            forall|i: int|
                0 <= i < old(self).paths().len() && #[trigger] old(self).paths()[i] != normalized(
                    path@,
                ) ==> exists|j: int|
                    0 <= j < final(self).paths().len() && #[trigger] final(self).paths()[j] == old(
                        self,
                    ).paths()[i] && final(self).fs_at(j) == old(self).fs_at(i),
            forall|i: int|
                0 <= i < final(self).paths().len() ==> ends_in_separator(
                    #[trigger] final(self).paths()[i],
                ),
            final(self).paths().len() == old(self).paths().len() + (if old(self).paths().contains(
                normalized(path@),
            ) {
                0int
            } else {
                1int
            }),
    {
        proof {
            use_type_invariant(&*self);
        }
        let mut normalized_path: Vec<u8> = Vec::new();
        let mut k: usize = 0;
        while k < path.len()
            invariant
                k <= path@.len(),
                normalized_path@ == path@.take(k as int),
            decreases path@.len() - k,
        {
            normalized_path.push(path[k]);
            assert(normalized_path@ =~= path@.take(k + 1));
            k += 1;
        }
        assert(path@.take(k as int) =~= path@);
        if path.len() == 0 || path[path.len() - 1] != SEPARATOR {
            normalized_path.push(SEPARATOR);
        }
        assert(normalized_path@ == normalized(path@));
        let mut mounts: Vec<Mount<F>> = Vec::new();
        core::mem::swap(&mut mounts, &mut self.mounts);
        let ghost before = old(self).paths();
        let mut place: usize = 0;
        let mut found = false;
        let mut done = false;
        while place < mounts.len() && !done
            invariant
                place <= mounts@.len(),
                mounts@ == old(self).mounts@,
                before == Seq::new(mounts@.len(), |i: int| mounts@[i].path@),
                forall|i: int|
                    0 <= i < place ==> comes_before(#[trigger] before[i], normalized_path@),
                !done ==> !found,
                done ==> place < mounts@.len(),
                done && found ==> before[place as int] == normalized_path@,
                done && !found ==> comes_before(normalized_path@, before[place as int]),
            decreases mounts@.len() - place + if done {
                0int
            } else {
                1int
            },
        {
            assert(before[place as int] == mounts@[place as int].path@);
            match place_of(mounts[place].path.as_slice(), normalized_path.as_slice()) {
                Place::Before => {
                    place += 1;
                },
                Place::Same => {
                    found = true;
                    done = true;
                },
                Place::After => {
                    done = true;
                },
            }
        }
        let ghost wanted = normalized_path@;
        if found {
            mounts[place] = Mount { path: normalized_path, fs };
        } else {
            mounts.insert(place, Mount { path: normalized_path, fs });
        }
        proof {
            let after = Seq::new(mounts@.len(), |i: int| mounts@[i].path@);
            assert(after[place as int] == wanted);
            if found {
                assert(after =~= before);
            } else {
                assert(after =~= before.insert(place as int, wanted));
                assert forall|i: int, j: int| 0 <= i < j < after.len() implies comes_before(
                    #[trigger] after[i],
                    #[trigger] after[j],
                ) by {
                    if j < place {
                        assert(comes_before(before[i], before[j]));
                    } else if j == place {
                        assert(comes_before(before[i], wanted));
                    } else if i == place {
                        assert(comes_before(wanted, before[place as int]));
                        if j - 1 > place {
                            assert(comes_before(before[place as int], before[j - 1]));
                            lemma_order_passes_on(wanted, before[place as int], before[j - 1]);
                        }
                    } else if i < place {
                        assert(comes_before(before[i], before[j - 1]));
                    } else {
                        assert(comes_before(before[i - 1], before[j - 1]));
                    }
                }
            }
            assert forall|other: Seq<u8>|
                after.contains(other) <==> before.contains(other) || other == wanted by {
                if after.contains(other) {
                    let i = choose|i: int| 0 <= i < after.len() && after[i] == other;
                    if !found {
                        if i < place {
                            assert(before[i] == other);
                        } else if i > place {
                            assert(before[i - 1] == other);
                        }
                    } else {
                        assert(before[i] == other);
                    }
                }
                if before.contains(other) {
                    let i = choose|i: int| 0 <= i < before.len() && before[i] == other;
                    if !found {
                        if i < place {
                            assert(after[i] == other);
                        } else {
                            assert(after[i + 1] == other);
                        }
                    } else {
                        assert(after[i] == other);
                    }
                }
            }
        }
        let ghost held = mounts@;
        core::mem::swap(&mut mounts, &mut self.mounts);
        assert(self.paths()[place as int] == normalized(path@));
        proof {
            assert forall|i: int|
                0 <= i < old(self).paths().len() && #[trigger] old(self).paths()[i] != normalized(
                    path@,
                ) implies exists|j: int|
                0 <= j < self.paths().len() && #[trigger] self.paths()[j] == old(self).paths()[i]
                    && self.fs_at(j) == old(self).fs_at(i) by {
                let j = if found || i < place {
                    i
                } else {
                    i + 1
                };
                assert(before[i] == old(self).mounts@[i].path@);
                assert(held[j] == old(self).mounts@[i]);
                assert(self.paths()[j] == old(self).paths()[i] && self.fs_at(j) == old(self).fs_at(i));
            }
            assert forall|i: int| 0 <= i < self.paths().len() implies ends_in_separator(
                #[trigger] self.paths()[i],
            ) by {
                if i == place {
                } else if found || i < place {
                    assert(ends_in_separator(old(self).paths()[i]));
                } else {
                    assert(ends_in_separator(old(self).paths()[i - 1]));
                }
            }
            if old(self).paths().contains(normalized(path@)) {
                let i = choose|i: int| 0 <= i < before.len() && before[i] == wanted;
                if !found {
                    if i < place {
                        lemma_order_is_one_way(before[i], wanted);
                    } else {
                        if i > place {
                            assert(comes_before(before[place as int], before[i]));
                            lemma_order_passes_on(wanted, before[place as int], before[i]);
                        }
                        lemma_order_is_one_way(wanted, before[i]);
                    }
                }
            }
        }
    }

    /// The mount point that `path` starts with, as its place among the
    /// paths, and the length of it: what `path` holds after that many bytes
    /// is the path within the filesystem.  Among several mount points the
    /// longest is taken.  `None` where `path` starts with none.
    #[verifier::rlimit(30)]
    pub fn find_mount(&self, path: &[u8]) -> (found: Option<(usize, usize)>)
        ensures
            match found {
                Some((i, length)) => {
                    &&& i < self.paths().len()
                    &&& starts_with(path@, self.paths()[i as int])
                    &&& length == self.paths()[i as int].len()
                    &&& forall|j: int|
                        0 <= j < self.paths().len() && starts_with(
                            path@,
                            #[trigger] self.paths()[j],
                        ) ==> self.paths()[j].len() <= length
                },
                None => forall|j: int|
                    0 <= j < self.paths().len() ==> !starts_with(path@, #[trigger] self.paths()[j]),
            },
    {
        proof {
            use_type_invariant(self);
        }
        // the paths ascend: the longest paths come first from the end
        let mut i: usize = self.mounts.len();
        while i > 0
            invariant
                i <= self.mounts@.len(),
                sorted(self.paths()),
                forall|j: int|
                    i <= j < self.paths().len() ==> !starts_with(path@, #[trigger] self.paths()[j]),
            decreases i,
        {
            i -= 1;
            let key = self.mounts[i].path.as_slice();
            assert(key@ == self.paths()[i as int]);
            if path_starts_with(path, key) {
                assert forall|j: int|
                    0 <= j < self.paths().len() && starts_with(
                        path@,
                        #[trigger] self.paths()[j],
                    ) implies self.paths()[j].len() <= key@.len() by {
                    if self.paths()[j].len() > key@.len() {
                        lemma_starts_nest(path@, key@, self.paths()[j]);
                        lemma_start_comes_before(self.paths()[j], key@);
                        assert(j < i);
                        assert(comes_before(self.paths()[j], self.paths()[i as int]));
                        lemma_order_is_one_way(self.paths()[j], key@);
                    }
                }
                return Some((i, key.len()));
            }
        }
        None
    }

    /// Opens the file at `path` in the filesystem with the longest mount
    /// point that `path` starts with.
    pub fn get_file(&self, path: &[u8]) -> (file: Option<F::File>)
        ensures
            (forall|j: int|
                0 <= j < self.paths().len() ==> !starts_with(path@, #[trigger] self.paths()[j]))
                ==> file.is_none(),
            forall|i: int|
                0 <= i < self.paths().len() && starts_with(path@, #[trigger] self.paths()[i]) && (
                forall|j: int|
                    0 <= j < self.paths().len() && starts_with(path@, #[trigger] self.paths()[j])
                        ==> self.paths()[j].len() <= self.paths()[i].len()) ==> {
                    let inner = path@.subrange(self.paths()[i].len() as int, path@.len() as int);
                    &&& file.is_some() <==> self.fs_at(i).file(inner).is_some()
                    &&& file matches Some(f) ==> Some(f.contents()) == self.fs_at(i).file(inner)
                },
    {
        proof {
            use_type_invariant(self);
        }
        match self.find_mount(path) {
            Some((i, length)) => {
                let sub_path = slice_subrange(path, length, path.len());
                proof {
                    // the longest mount point is one path only
                    assert forall|k: int|
                        0 <= k < self.paths().len() && starts_with(path@, #[trigger] self.paths()[k])
                            && self.paths()[k].len() == length implies k == i by {
                        lemma_starts_nest(path@, self.paths()[k], self.paths()[i as int]);
                        assert(self.paths()[k] =~= self.paths()[i as int]);
                        if k < i {
                            lemma_order_is_one_way(self.paths()[k], self.paths()[i as int]);
                        } else if i < k {
                            lemma_order_is_one_way(self.paths()[i as int], self.paths()[k]);
                        }
                    }
                }
                self.mounts[i].fs.get_file(sub_path)
            },
            None => None,
        }
    }
}

/// What comes before a path comes before every path after it.
#[verifier::rlimit(30)]
pub proof fn lemma_order_passes_on(a: Seq<u8>, b: Seq<u8>, c: Seq<u8>)
    requires
        comes_before(a, b) || a == b,
        comes_before(b, c),
    ensures
        comes_before(a, c),
{
    if a != b {
        let k = choose|k: int|
            #![trigger a.subrange(0, k)]
            0 <= k <= a.len() && k <= b.len() && a.subrange(0, k) == b.subrange(0, k) && ((k
                == a.len() && k < b.len()) || (k < a.len() && k < b.len() && a[k] < b[k]));
        let m = choose|m: int|
            #![trigger b.subrange(0, m)]
            0 <= m <= b.len() && m <= c.len() && b.subrange(0, m) == c.subrange(0, m) && ((m
                == b.len() && m < c.len()) || (m < b.len() && m < c.len() && b[m] < c[m]));
        let n = if k < m {
            k
        } else {
            m
        };
        assert(a.subrange(0, n) =~= c.subrange(0, n)) by {
            assert forall|i: int| 0 <= i < n implies a[i] == c[i] by {
                assert(a.subrange(0, k)[i] == b.subrange(0, k)[i]);
                assert(b.subrange(0, m)[i] == c.subrange(0, m)[i]);
            }
        }
        if k < m {
            assert(b.subrange(0, m)[k] == c.subrange(0, m)[k]);
        } else if m < k {
            assert(a.subrange(0, k)[m] == b.subrange(0, k)[m]);
        }
    }
}

} // verus!
