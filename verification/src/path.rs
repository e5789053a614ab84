//! File paths and their components.
//!
//! A path is a string of bytes in which `/` separates components. A path starting with `/` is
//! absolute: its first component is the root directory.
use crate::errno::Errno;
use vstd::prelude::*;
use vstd::slice::slice_subrange;

verus! {

/// The character used as a path separator.
pub const PATH_SEPARATOR: u8 = 47;
/// The maximum length of a path in bytes.
pub const PATH_MAX: usize = 4096;

/// The bytes of the root directory component.
pub open spec fn root_bytes() -> Seq<u8> {
    seq![PATH_SEPARATOR]
}

/// The number of bytes before the first separator in `s[f..b]`.
pub open spec fn run_fwd(s: Seq<u8>, f: int, b: int) -> nat
    decreases b - f,
{
    if f >= b || s[f] == PATH_SEPARATOR {
        0
    } else {
        1 + run_fwd(s, f + 1, b)
    }
}

/// The number of bytes after the last separator in `s[f..b]`.
pub open spec fn run_bwd(s: Seq<u8>, f: int, b: int) -> nat
    decreases b - f,
{
    if f >= b || s[b - 1] == PATH_SEPARATOR {
        0
    } else {
        1 + run_bwd(s, f, b - 1)
    }
}

/// The next component, read forward, of the part `s[f..b]` of path `s`, with the new front
/// offset. Separators are skipped; a separator at the very beginning of the path is the root
/// directory.
pub open spec fn next_fwd(s: Seq<u8>, f: int, b: int) -> (Option<Seq<u8>>, int)
    decreases b - f,
{
    if f >= b {
        (None, f)
    } else if s[f] == PATH_SEPARATOR {
        if f == 0 {
            (Some(root_bytes()), 1)
        } else {
            next_fwd(s, f + 1, b)
        }
    } else {
        let n = run_fwd(s, f, b);
        (Some(s.subrange(f, f + n)), f + n)
    }
}

/// The next component, read backward, of the part `s[f..b]` of path `s`, with the new back
/// offset. Separators are skipped; a separator at the very beginning of the path is the root
/// directory.
pub open spec fn next_bwd(s: Seq<u8>, f: int, b: int) -> (Option<Seq<u8>>, int)
    decreases b - f,
{
    if f >= b {
        (None, b)
    } else if s[b - 1] == PATH_SEPARATOR {
        if b - 1 == 0 {
            (Some(root_bytes()), 0)
        } else {
            next_bwd(s, f, b - 1)
        }
    } else {
        let n = run_bwd(s, f, b);
        (Some(s.subrange(b - n, b)), b - n)
    }
}

/// All the components, read forward, of the part `s[f..b]` of path `s`.
pub open spec fn comps_fwd(s: Seq<u8>, f: int, b: int) -> Seq<Seq<u8>>
    decreases b - f,
{
    let (c, nf) = next_fwd(s, f, b);
    if c is None || nf <= f || nf > b {
        Seq::empty()
    } else {
        seq![c->0].add(comps_fwd(s, nf, b))
    }
}

/// All the components of path `s`, in order.
pub open spec fn components_of(s: Seq<u8>) -> Seq<Seq<u8>> {
    comps_fwd(s, 0, s.len() as int)
}

/// The path made of the components in `cs`, in order, each separated from the previous one by
/// a `/` unless that one ends with it (the root directory).
pub open spec fn join_comps(cs: Seq<Seq<u8>>) -> Seq<u8>
    decreases cs.len(),
{
    if cs.len() == 0 {
        Seq::empty()
    } else {
        let prev = join_comps(cs.drop_last());
        if prev.len() == 0 || prev.last() == PATH_SEPARATOR {
            prev.add(cs.last())
        } else {
            prev.push(PATH_SEPARATOR).add(cs.last())
        }
    }
}

proof fn lemma_run_fwd_bounds(s: Seq<u8>, f: int, b: int)
    requires
        0 <= f,
        b <= s.len(),
    ensures
        f <= b ==> f + run_fwd(s, f, b) <= b,
        forall|i: int| f <= i < f + run_fwd(s, f, b) ==> s[i] != PATH_SEPARATOR,
    decreases b - f,
{
    if f < b && s[f] != PATH_SEPARATOR {
        lemma_run_fwd_bounds(s, f + 1, b);
    }
}

proof fn lemma_run_bwd_bounds(s: Seq<u8>, f: int, b: int)
    requires
        0 <= f,
        b <= s.len(),
    ensures
        f <= b ==> f <= b - run_bwd(s, f, b),
        forall|i: int| b - run_bwd(s, f, b) <= i < b ==> s[i] != PATH_SEPARATOR,
    decreases b - f,
{
    if f < b && s[b - 1] != PATH_SEPARATOR {
        lemma_run_bwd_bounds(s, f, b - 1);
    }
}

/// Reading a component forward moves the front offset forward, within the remaining part.
pub proof fn lemma_next_fwd_progress(s: Seq<u8>, f: int, b: int)
    requires
        0 <= f,
        b <= s.len(),
    ensures
        next_fwd(s, f, b).0 is Some ==> f < next_fwd(s, f, b).1 <= b,
        next_fwd(s, f, b).0 is None ==> next_fwd(s, f, b).1 == if f >= b { f } else { b },
    decreases b - f,
{
    if f < b {
        if s[f] == PATH_SEPARATOR {
            if f != 0 {
                lemma_next_fwd_progress(s, f + 1, b);
            }
        } else {
            lemma_run_fwd_bounds(s, f, b);
        }
    }
}

/// Reading a component backward moves the back offset backward, within the remaining part.
pub proof fn lemma_next_bwd_progress(s: Seq<u8>, f: int, b: int)
    requires
        0 <= f,
        b <= s.len(),
    ensures
        next_bwd(s, f, b).0 is Some ==> (f <= next_bwd(s, f, b).1 < b || next_bwd(s, f, b).1
            == 0),
        next_bwd(s, f, b).0 is Some ==> 0 <= next_bwd(s, f, b).1 < b,
        next_bwd(s, f, b).0 is None ==> next_bwd(s, f, b).1 == if f >= b { b } else { f },
    decreases b - f,
{
    if f < b {
        if s[b - 1] == PATH_SEPARATOR {
            if b - 1 != 0 {
                lemma_next_bwd_progress(s, f, b - 1);
            }
        } else {
            lemma_run_bwd_bounds(s, f, b);
        }
    }
}

/// The list of remaining components is the next component followed by the components after it.
pub proof fn lemma_comps_fwd_unfold(s: Seq<u8>, f: int, b: int)
    requires
        0 <= f,
        b <= s.len(),
    ensures
        next_fwd(s, f, b).0 is None ==> comps_fwd(s, f, b) == Seq::<Seq<u8>>::empty(),
        next_fwd(s, f, b).0 is None ==> comps_fwd(s, next_fwd(s, f, b).1, b) == Seq::<
            Seq<u8>,
        >::empty(),
        next_fwd(s, f, b).0 is Some ==> comps_fwd(s, f, b) == seq![next_fwd(s, f, b).0->0].add(
            comps_fwd(s, next_fwd(s, f, b).1, b),
        ),
{
    lemma_next_fwd_progress(s, f, b);
    let nf = next_fwd(s, f, b).1;
    if next_fwd(s, f, b).0 is None {
        assert(next_fwd(s, nf, b).0 is None);
    }
}

/// A component of a path.
#[derive(Clone, Debug, PartialEq, Eq)]
pub enum Component<'p> {
    /// The root directory (heading `/`).
    RootDir,
    /// The current directory (`.`).
    CurDir,
    /// The parent directory (`..`).
    ParentDir,
    /// A normal component.
    Normal(&'p [u8]),
}

impl<'p> View for Component<'p> {
    type V = Seq<u8>;

    /// The bytes of the component as written in a path.
    open spec fn view(&self) -> Seq<u8> {
        match self {
            Component::RootDir => root_bytes(),
            Component::CurDir => seq![46u8],
            Component::ParentDir => seq![46u8, 46u8],
            Component::Normal(name) => name@,
        }
    }
}

/// The kind of the component agrees with its bytes: `/` is the root directory, `.` the current
/// directory and `..` the parent directory.
pub open spec fn kind_ok(x: Component) -> bool {
    &&& (x is RootDir <==> x@ == root_bytes())
    &&& (x is CurDir <==> x@ == seq![46u8])
    &&& (x is ParentDir <==> x@ == seq![46u8, 46u8])
}

/// The bytes of an optional component.
pub open spec fn opt_view(c: Option<Component>) -> Option<Seq<u8>> {
    match c {
        Some(c) => Some(c@),
        None => None,
    }
}

impl<'p> Component<'p> {
    /// Returns the component corresponding to the given string representation, which contains no
    /// separator.
    pub fn from_bytes(name: &'p [u8]) -> (c: Self)
        ensures
            c@ == name@,
            (name@ == seq![46u8]) <==> c is CurDir,
            (name@ == seq![46u8, 46u8]) <==> c is ParentDir,
            c !is RootDir,
    {
        if name.len() == 1 && name[0] == 46 {
            assert(name@ == seq![46u8]);
            Component::CurDir
        } else if name.len() == 2 && name[0] == 46 && name[1] == 46 {
            assert(name@ == seq![46u8, 46u8]);
            Component::ParentDir
        } else {
            assert(name@ != seq![46u8]);
            assert(name@ != seq![46u8, 46u8]) by {
                if name@ == seq![46u8, 46u8] {
                    assert(name@.len() == 2);
                    assert(name@[0] == 46 && name@[1] == 46);
                }
            }
            Component::Normal(name)
        }
    }

    /// Appends the bytes of the component to `out`.
    fn push_bytes(&self, out: &mut Vec<u8>)
        ensures
            final(out)@ == old(out)@.add(self@),
    {
        match self {
            Component::RootDir => {
                out.push(PATH_SEPARATOR);
                assert(final(out)@ =~= old(out)@.add(root_bytes()));
            },
            Component::CurDir => {
                out.push(46);
                assert(final(out)@ =~= old(out)@.add(seq![46u8]));
            },
            Component::ParentDir => {
                out.push(46);
                out.push(46);
                assert(final(out)@ =~= old(out)@.add(seq![46u8, 46u8]));
            },
            Component::Normal(name) => {
                let ghost before = out@;
                let mut i: usize = 0;
                while i < name.len()
                    invariant
                        i <= name@.len(),
                        out@ == before.add(name@.subrange(0, i as int)),
                    decreases name@.len() - i,
                {
                    out.push(name[i]);
                    assert(name@.subrange(0, i + 1) =~= name@.subrange(0, i as int).push(
                        name@[i as int],
                    ));
                    assert(out@ =~= before.add(name@.subrange(0, i + 1)));
                    i += 1;
                }
                assert(name@.subrange(0, name@.len() as int) =~= name@);
            },
        }
    }
}

/// The components of `base` are the first components of `path`.
pub open spec fn starts_with_spec(path: Seq<u8>, base: Seq<u8>) -> bool {
    let cp = components_of(path);
    let cb = components_of(base);
    cb.len() <= cp.len() && forall|i: int| 0 <= i < cb.len() ==> #[trigger] cp[i] == cb[i]
}

/// The offset in `s` after its first `n` components read forward, `s[..b]` being read.
pub open spec fn fwd_after(s: Seq<u8>, b: int, n: nat) -> int
    decreases n,
{
    if n == 0 {
        0
    } else {
        next_fwd(s, fwd_after(s, b, (n - 1) as nat), b).1
    }
}

/// The offset of the first byte at or after `f` in `s` that is not a separator, or the end of
/// `s`.
pub open spec fn skip_separators(s: Seq<u8>, f: int) -> int
    decreases s.len() - f,
{
    if 0 <= f < s.len() && s[f] == PATH_SEPARATOR {
        skip_separators(s, f + 1)
    } else {
        f
    }
}

/// Borrowed file path.
#[derive(Clone, Copy, Debug, PartialEq, Eq)]
pub struct Path<'p> {
    bytes: &'p [u8],
}

impl<'p> View for Path<'p> {
    type V = Seq<u8>;

    closed spec fn view(&self) -> Seq<u8> {
        self.bytes@
    }
}

impl Path<'static> {
    /// Creates a new path to root.
    pub fn root() -> (p: Self)
        ensures
            p@ == root_bytes(),
    {
        let bytes: &'static [u8] = &[PATH_SEPARATOR];
        assert(bytes@ =~= root_bytes());
        Path { bytes }
    }
}

impl<'p> Path<'p> {
    /// Creates a new instance from the given string.
    ///
    /// If the total length of the path is longer than [`PATH_MAX`], the function returns an
    /// error ([`Errno::ENAMETOOLONG`]).
    pub fn new(s: &'p [u8]) -> (r: Result<Self, Errno>)
        ensures
            s@.len() <= PATH_MAX ==> (r matches Ok(p) && p@ == s@),
            s@.len() > PATH_MAX ==> r == Err::<Self, Errno>(Errno::ENAMETOOLONG),
    {
        if s.len() <= PATH_MAX {
            Ok(Path { bytes: s })
        } else {
            Err(Errno::ENAMETOOLONG)
        }
    }

    /// Creates a new instance from the given string without checking its length.
    pub fn new_unchecked(s: &'p [u8]) -> (p: Self)
        ensures
            p@ == s@,
    {
        Path { bytes: s }
    }

    /// Returns the length of the path in bytes.
    pub fn len(&self) -> (n: usize)
        ensures
            n == self@.len(),
    {
        self.bytes.len()
    }

    /// Tells whether the path is empty.
    pub fn is_empty(&self) -> (b: bool)
        ensures
            b == (self@.len() == 0),
    {
        self.bytes.len() == 0
    }

    /// Tells whether the path is absolute.
    pub fn is_absolute(&self) -> (b: bool)
        ensures
            b == (self@.len() > 0 && self@[0] == PATH_SEPARATOR),
    {
        self.bytes.len() > 0 && self.bytes[0] == PATH_SEPARATOR
    }

    /// Returns slice of the bytes representation of the path.
    pub fn as_bytes(&self) -> (b: &'p [u8])
        ensures
            b@ == self@,
    {
        self.bytes
    }

    /// Clones the path and returns a [`PathBuf`].
    pub fn to_path_buf(&self) -> (p: PathBuf)
        ensures
            p@ == self@,
    {
        PathBuf { inner: vstd::slice::slice_to_vec(self.bytes) }
    }

    /// Returns an iterator over the path's components.
    pub fn components(&self) -> (c: Components<'p>)
        ensures
            c.path()@ == self@,
            c.front() == 0,
            c.back() == self@.len(),
    {
        Components { path: self.bytes, front: 0, back: self.bytes.len() }
    }

    /// Returns the final component of the path.
    ///
    /// This function returns `None` only if it terminates with root, or if it has no component.
    pub fn file_name(&self) -> (r: Option<&'p [u8]>)
        ensures
            match next_bwd(self@, 0, self@.len() as int).0 {
                None => r is None,
                Some(c) => if c == root_bytes() {
                    r is None
                } else {
                    r matches Some(n) && n@ == c
                },
            },
    {
        let mut comps = self.components();
        match comps.next_range(true) {
            None => None,
            Some((start, end, root)) => {
                if root {
                    None
                } else {
                    let n = slice_subrange(self.bytes, start, end);
                    Some(n)
                }
            },
        }
    }

    /// Returns the path without its final component.
    ///
    /// This function returns `None` only if it terminates with root, or if it has no component.
    pub fn parent(&self) -> (r: Option<Path<'p>>)
        ensures
            match next_bwd(self@, 0, self@.len() as int).0 {
                None => r is None,
                Some(c) => if c == root_bytes() {
                    r is None
                } else {
                    r matches Some(p) && p@ == self@.subrange(
                        0,
                        next_bwd(self@, 0, self@.len() as int).1,
                    )
                },
            },
    {
        let mut comps = self.components();
        let last = comps.next_back();
        match last {
            None => None,
            Some(Component::RootDir) => None,
            Some(_) => Some(comps.as_path()),
        }
    }

    /// Reads the components of `base` and the first ones of the path together. If the
    /// components of `base` begin those of the path, the function returns the offset in the path
    /// after them, else `None`.
    fn match_prefix(&self, base: &Path) -> (r: Option<usize>)
        ensures
            r is Some == starts_with_spec(self@, base@),
            r matches Some(f) ==> f == fwd_after(
                self@,
                self@.len() as int,
                components_of(base@).len(),
            ) && f <= self@.len(),
    {
        let mut a = self.components();
        let mut c = base.components();
        let ghost ca = components_of(self@);
        let ghost cb = components_of(base@);
        let ghost mut k: int = 0;
        loop
            invariant
                a.path()@ == self@,
                c.path()@ == base@,
                a.front() <= a.back() <= a.path()@.len(),
                c.front() <= c.back() <= c.path()@.len(),
                a.back() == self@.len(),
                ca == components_of(self@),
                cb == components_of(base@),
                0 <= k <= ca.len(),
                k <= cb.len(),
                a.front() == fwd_after(self@, self@.len() as int, k as nat),
                ca == ca.subrange(0, k).add(comps_fwd(self@, a.front() as int, a.back() as int)),
                cb == cb.subrange(0, k).add(comps_fwd(base@, c.front() as int, c.back() as int)),
                forall|i: int| 0 <= i < k ==> #[trigger] ca[i] == cb[i],
            decreases ca.len() - k,
        {
            let ghost rest_a = comps_fwd(self@, a.front() as int, a.back() as int);
            let ghost rest_b = comps_fwd(base@, c.front() as int, c.back() as int);
            proof {
                lemma_comps_fwd_unfold(self@, a.front() as int, a.back() as int);
                lemma_comps_fwd_unfold(base@, c.front() as int, c.back() as int);
            }
            let front = a.front;
            let x = a.next();
            let y = c.next();
            match (x, y) {
                (Some(x), Some(y)) => {
                    proof {
                        assert(ca[k] == x@) by {
                            assert(ca[k] == rest_a[0]);
                        }
                        assert(cb[k] == y@) by {
                            assert(cb[k] == rest_b[0]);
                        }
                        assert(ca.subrange(0, k + 1) =~= ca.subrange(0, k).push(x@));
                        assert(ca =~= ca.subrange(0, k + 1).add(
                            comps_fwd(self@, a.front() as int, a.back() as int),
                        ));
                        assert(cb =~= cb.subrange(0, k + 1).add(
                            comps_fwd(base@, c.front() as int, c.back() as int),
                        ));
                    }
                    if !component_eq(&x, &y) {
                        assert(components_of(self@)[k] != components_of(base@)[k]);
                        return None;
                    }
                    proof {
                        k = k + 1;
                    }
                },
                (_, None) => {
                    proof {
                        assert(cb.len() == k);
                    }
                    return Some(front);
                },
                (None, Some(_)) => {
                    proof {
                        assert(ca.len() == k);
                        assert(cb.len() > k);
                    }
                    return None;
                },
            }
        }
    }

    /// Tells whether the path starts with the given `base`: the components of `base` are the
    /// first components of the path.
    pub fn starts_with(&self, base: &Path) -> (b: bool)
        ensures
            b == starts_with_spec(self@, base@),
    {
        self.match_prefix(base).is_some()
    }

    /// Strips the path from the given `prefix` and returns the remaining components.
    ///
    /// If the path does not start with the given `prefix`, the function returns `None`.
    pub fn strip_prefix(&self, prefix: &Path) -> (r: Option<Path<'p>>)
        ensures
            !starts_with_spec(self@, prefix@) ==> r is None,
            starts_with_spec(self@, prefix@) ==> (r matches Some(p) && p@ == self@.subrange(
                skip_separators(
                    self@,
                    fwd_after(self@, self@.len() as int, components_of(prefix@).len()),
                ),
                self@.len() as int,
            )),
    {
        let mut f = match self.match_prefix(prefix) {
            Some(f) => f,
            None => return None,
        };
        let ghost f0 = f as int;
        while f < self.bytes.len() && self.bytes[f] == PATH_SEPARATOR
            invariant
                f0 <= f <= self@.len(),
                skip_separators(self@, f0) == skip_separators(self@, f as int),
            decreases self@.len() - f,
        {
            f += 1;
        }
        Some(Path { bytes: slice_subrange(self.bytes, f, self.bytes.len()) })
    }

    /// Joins the path with another: if `path` is absolute, it replaces the current path,
    /// otherwise the result is made of the components of both paths, in order, separated by `/`.
    ///
    /// The function does not check path length and allows longer paths than [`PATH_MAX`].
    pub fn join(&self, path: &Path) -> (r: PathBuf)
        ensures
            (path@.len() > 0 && path@[0] == PATH_SEPARATOR) ==> r@ == path@,
            !(path@.len() > 0 && path@[0] == PATH_SEPARATOR) ==> r@ == join_comps(
                components_of(self@).add(components_of(path@)),
            ),
    {
        if path.is_absolute() {
            return path.to_path_buf();
        }
        let mut out: Vec<u8> = Vec::new();
        let ghost cs = components_of(self@).add(components_of(path@));
        let ghost mut k: int = 0;
        let mut it = self.components();
        loop
            invariant
                it.path()@ == self@,
                it.front() <= it.back() <= it.path()@.len(),
                0 <= k <= components_of(self@).len(),
                components_of(self@) == components_of(self@).subrange(0, k).add(
                    comps_fwd(self@, it.front() as int, it.back() as int),
                ),
                out@ == join_comps(cs.subrange(0, k)),
                cs == components_of(self@).add(components_of(path@)),
            ensures
                k == components_of(self@).len(),
                out@ == join_comps(cs.subrange(0, k)),
                cs == components_of(self@).add(components_of(path@)),
            decreases components_of(self@).len() - k,
        {
            let ghost rest = comps_fwd(self@, it.front() as int, it.back() as int);
            proof {
                lemma_comps_fwd_unfold(self@, it.front() as int, it.back() as int);
            }
            match it.next() {
                Some(c) => {
                    proof {
                        assert(cs[k] == c@) by {
                            assert(components_of(self@)[k] == rest[0]);
                        }
                        assert(cs.subrange(0, k + 1).drop_last() =~= cs.subrange(0, k));
                        assert(components_of(self@).subrange(0, k + 1) =~= components_of(
                            self@,
                        ).subrange(0, k).push(c@));
                        assert(components_of(self@) =~= components_of(self@).subrange(0, k + 1).add(
                            comps_fwd(self@, it.front() as int, it.back() as int),
                        ));
                    }
                    if out.len() > 0 && out[out.len() - 1] != PATH_SEPARATOR {
                        out.push(PATH_SEPARATOR);
                    }
                    c.push_bytes(&mut out);
                    proof {
                        k = k + 1;
                    }
                },
                None => {
                    break ;
                },
            }
        }
        let ghost n1 = components_of(self@).len() as int;
        assert(k == n1);
        let mut it = path.components();
        loop
            invariant
                it.path()@ == path@,
                it.front() <= it.back() <= it.path()@.len(),
                n1 == components_of(self@).len(),
                n1 <= k <= cs.len(),
                components_of(path@) == components_of(path@).subrange(0, k - n1).add(
                    comps_fwd(path@, it.front() as int, it.back() as int),
                ),
                out@ == join_comps(cs.subrange(0, k)),
                cs == components_of(self@).add(components_of(path@)),
                cs.len() == n1 + components_of(path@).len(),
            ensures
                k == cs.len(),
                out@ == join_comps(cs.subrange(0, k)),
            decreases cs.len() - k,
        {
            let ghost rest = comps_fwd(path@, it.front() as int, it.back() as int);
            proof {
                lemma_comps_fwd_unfold(path@, it.front() as int, it.back() as int);
            }
            match it.next() {
                Some(c) => {
                    proof {
                        assert(cs[k] == c@) by {
                            assert(components_of(path@)[k - n1] == rest[0]);
                        }
                        assert(cs.subrange(0, k + 1).drop_last() =~= cs.subrange(0, k));
                        assert(components_of(path@).subrange(0, k + 1 - n1) =~= components_of(
                            path@,
                        ).subrange(0, k - n1).push(c@));
                        assert(components_of(path@) =~= components_of(path@).subrange(
                            0,
                            k + 1 - n1,
                        ).add(comps_fwd(path@, it.front() as int, it.back() as int)));
                    }
                    if out.len() > 0 && out[out.len() - 1] != PATH_SEPARATOR {
                        out.push(PATH_SEPARATOR);
                    }
                    c.push_bytes(&mut out);
                    proof {
                        k = k + 1;
                    }
                },
                None => {
                    break ;
                },
            }
        }
        assert(cs.subrange(0, k) =~= cs);
        PathBuf { inner: out }
    }
}

/// Compares two components by their bytes.
fn component_eq(a: &Component, b: &Component) -> (r: bool)
    ensures
        r == (a@ == b@),
{
    let mut x: Vec<u8> = Vec::new();
    a.push_bytes(&mut x);
    let mut y: Vec<u8> = Vec::new();
    b.push_bytes(&mut y);
    assert(x@ =~= a@);
    assert(y@ =~= b@);
    if x.len() != y.len() {
        assert(x@.len() != y@.len());
        return false;
    }
    let mut i: usize = 0;
    while i < x.len()
        invariant
            x@ == a@,
            y@ == b@,
            x@.len() == y@.len(),
            i <= x@.len(),
            forall|j: int| 0 <= j < i ==> x@[j] == y@[j],
        decreases x@.len() - i,
    {
        if x[i] != y[i] {
            assert(x@[i as int] != y@[i as int]);
            return false;
        }
        i += 1;
    }
    assert(x@ =~= y@);
    true
}

/// Owned file path.
#[derive(Clone, Debug, Default, PartialEq, Eq)]
pub struct PathBuf {
    inner: Vec<u8>,
}

impl View for PathBuf {
    type V = Seq<u8>;

    closed spec fn view(&self) -> Seq<u8> {
        self.inner@
    }
}

impl PathBuf {
    /// Creates a new path to root.
    pub fn root() -> (p: Self)
        ensures
            p@ == root_bytes(),
    {
        let mut inner: Vec<u8> = Vec::new();
        inner.push(PATH_SEPARATOR);
        assert(inner@ =~= root_bytes());
        PathBuf { inner }
    }

    /// Creates a `PathBuf` without checking the length of the given bytes.
    pub fn new_unchecked(s: Vec<u8>) -> (p: Self)
        ensures
            p@ == s@,
    {
        PathBuf { inner: s }
    }

    /// Creates a new instance from the given string.
    ///
    /// If the total length of the path is longer than [`PATH_MAX`], the function returns an
    /// error ([`Errno::ENAMETOOLONG`]).
    pub fn try_from_bytes(s: &[u8]) -> (r: Result<Self, Errno>)
        ensures
            s@.len() <= PATH_MAX ==> (r matches Ok(p) && p@ == s@),
            s@.len() > PATH_MAX ==> r == Err::<Self, Errno>(Errno::ENAMETOOLONG),
    {
        if s.len() > PATH_MAX {
            return Err(Errno::ENAMETOOLONG);
        }
        Ok(PathBuf { inner: vstd::slice::slice_to_vec(s) })
    }

    /// Returns the borrowed path.
    pub fn as_path(&self) -> (p: Path<'_>)
        ensures
            p@ == self@,
    {
        Path { bytes: self.inner.as_slice() }
    }
}

/// Iterator over a path's components.
pub struct Components<'p> {
    /// The path over which the iterator works.
    path: &'p [u8],
    /// The current front offset.
    front: usize,
    /// The current back offset.
    back: usize,
}

impl<'p> Components<'p> {
    /// The bytes of the whole path being iterated.
    pub closed spec fn path(&self) -> &'p [u8] {
        self.path
    }

    /// The offset of the next component read forward.
    pub closed spec fn front(&self) -> usize {
        self.front
    }

    /// The offset after the next component read backward.
    pub closed spec fn back(&self) -> usize {
        self.back
    }

    #[verifier::type_invariant]
    spec fn wf(&self) -> bool {
        self.front <= self.back <= self.path@.len()
    }

    /// Tells whether the iterator is finished.
    pub fn is_finished(&self) -> (b: bool)
        ensures
            b == (self.front() >= self.back()),
    {
        self.front >= self.back
    }

    /// Returns a slice to the inner representation of the remaining data in the iterator.
    pub fn as_slice(&self) -> (s: &'p [u8])
        ensures
            self.front() <= self.back() <= self.path()@.len(),
            s@ == self.path()@.subrange(self.front() as int, self.back() as int),
    {
        proof {
            use_type_invariant(self);
        }
        slice_subrange(self.path, self.front, self.back)
    }

    /// Returns a path representing the remaining data in the iterator.
    pub fn as_path(&self) -> (p: Path<'p>)
        ensures
            p@ == self.path()@.subrange(self.front() as int, self.back() as int),
    {
        Path { bytes: self.as_slice() }
    }

    /// Reads the next component, forward or backward, and returns its range in the path and
    /// whether it is the root directory.
    fn next_range(&mut self, backwards: bool) -> (r: Option<(usize, usize, bool)>)
        ensures
            final(self).path() == old(self).path(),
            ({
                let s = old(self).path()@;
                let (c, off) = if backwards {
                    next_bwd(s, old(self).front() as int, old(self).back() as int)
                } else {
                    next_fwd(s, old(self).front() as int, old(self).back() as int)
                };
                &&& !backwards ==> final(self).front() == off && final(self).back() == old(
                    self,
                ).back()
                &&& backwards ==> final(self).back() == off && final(self).front() == old(
                    self,
                ).front()
                &&& match c {
                    None => r is None,
                    Some(c) => r matches Some((a, b, root)) && a <= b <= s.len() && root == (c
                        == root_bytes()) && (!root ==> s.subrange(a as int, b as int) == c
                        && c.len() > 0 && (forall|i: int| 0 <= i < c.len() ==> c[i]
                        != PATH_SEPARATOR)),
                }
            }),
    {
        proof {
            use_type_invariant(&*self);
        }
        let ghost s = self.path@;
        let ghost target = if backwards {
            next_bwd(s, self.front as int, self.back as int)
        } else {
            next_fwd(s, self.front as int, self.back as int)
        };
        let ghost f0 = self.front;
        let ghost b0 = self.back;
        let ghost p0 = self.path;
        loop
            invariant
                p0 == old(self).path,
                f0 == old(self).front,
                b0 == old(self).back,
                self.path == p0,
                self.path@ == s,
                self.front <= self.back <= s.len(),
                !backwards ==> self.back == b0 && next_fwd(s, self.front as int, self.back as int)
                    == target && f0 <= self.front,
                backwards ==> self.front == f0 && next_bwd(s, self.front as int, self.back as int)
                    == target && self.back <= b0,
                target == if backwards {
                    next_bwd(s, f0 as int, b0 as int)
                } else {
                    next_fwd(s, f0 as int, b0 as int)
                },
            decreases self.back - self.front,
        {
            if self.front >= self.back {
                return None;
            }
            if !backwards {
                if self.path[self.front] != PATH_SEPARATOR {
                    let start = self.front;
                    let mut i = start;
                    while i < self.back && self.path[i] != PATH_SEPARATOR
                        invariant
                            start <= i <= self.back <= s.len(),
                            self.path@ == s,
                            start < self.back,
                            s[start as int] != PATH_SEPARATOR,
                            run_fwd(s, start as int, self.back as int) == (i - start) + run_fwd(
                                s,
                                i as int,
                                self.back as int,
                            ),
                        decreases self.back - i,
                    {
                        i += 1;
                    }
                    proof {
                        lemma_run_fwd_bounds(s, start as int, self.back as int);
                        let c = s.subrange(start as int, i as int);
                        assert(c.len() > 0);
                        if c == root_bytes() {
                            assert(c[0] == s[start as int]);
                        }
                    }
                    let ghost old_self = *self;
                    self.front = i;
                    return Some((start, i, false));
                }
                let ghost f = self.front;
                self.front = self.front + 1;
                if self.front == 1 {
                    return Some((0, 1, true));
                }
                assert(next_fwd(s, f as int, self.back as int) == next_fwd(
                    s,
                    self.front as int,
                    self.back as int,
                ));
            } else {
                if self.path[self.back - 1] != PATH_SEPARATOR {
                    let end = self.back;
                    let mut i = end;
                    while i > self.front && self.path[i - 1] != PATH_SEPARATOR
                        invariant
                            self.front <= i <= end <= s.len(),
                            self.path@ == s,
                            self.front < end,
                            s[end - 1] != PATH_SEPARATOR,
                            run_bwd(s, self.front as int, end as int) == (end - i) + run_bwd(
                                s,
                                self.front as int,
                                i as int,
                            ),
                        decreases i,
                    {
                        i -= 1;
                    }
                    proof {
                        lemma_run_bwd_bounds(s, self.front as int, end as int);
                        let c = s.subrange(i as int, end as int);
                        assert(c.len() > 0);
                        if c == root_bytes() {
                            assert(c[0] == s[i as int]);
                        }
                    }
                    self.back = i;
                    return Some((i, end, false));
                }
                let ghost b = self.back;
                self.back = self.back - 1;
                if self.back == 0 {
                    return Some((0, 1, true));
                }
                assert(next_bwd(s, self.front as int, b as int) == next_bwd(
                    s,
                    self.front as int,
                    self.back as int,
                ));
            }
        }
    }

    fn next_impl(&mut self, backwards: bool) -> (r: Option<Component<'p>>)
        ensures
            final(self).path() == old(self).path(),
            ({
                let s = old(self).path()@;
                let (c, off) = if backwards {
                    next_bwd(s, old(self).front() as int, old(self).back() as int)
                } else {
                    next_fwd(s, old(self).front() as int, old(self).back() as int)
                };
                &&& !backwards ==> final(self).front() == off && final(self).back() == old(
                    self,
                ).back()
                &&& backwards ==> final(self).back() == off && final(self).front() == old(
                    self,
                ).front()
                &&& opt_view(r) == c
                &&& r matches Some(x) ==> (x is RootDir <==> c->0 == root_bytes())
                &&& r matches Some(x) ==> kind_ok(x)
            }),
    {
        match self.next_range(backwards) {
            None => None,
            Some((a, b, root)) => {
                if root {
                    assert(root_bytes()[0] != seq![46u8][0]);
                    assert(root_bytes().len() != seq![46u8, 46u8].len());
                    Some(Component::RootDir)
                } else {
                    let name = slice_subrange(self.path, a, b);
                    let c = Component::from_bytes(name);
                    Some(c)
                }
            },
        }
    }

    /// Returns the next component, reading forward.
    pub fn next(&mut self) -> (r: Option<Component<'p>>)
        ensures
            final(self).path() == old(self).path(),
            final(self).back() == old(self).back(),
            final(self).front() <= final(self).back() <= final(self).path()@.len(),
            (opt_view(r), final(self).front() as int) == next_fwd(
                old(self).path()@,
                old(self).front() as int,
                old(self).back() as int,
            ),
            r matches Some(x) ==> (x is RootDir <==> x@ == root_bytes()),
            r matches Some(x) ==> kind_ok(x),
    {
        let r = self.next_impl(false);
        proof {
            use_type_invariant(&*self);
        }
        r
    }

    /// Returns the next component, reading backward.
    pub fn next_back(&mut self) -> (r: Option<Component<'p>>)
        ensures
            final(self).path() == old(self).path(),
            final(self).front() == old(self).front(),
            final(self).front() <= final(self).back() <= final(self).path()@.len(),
            (opt_view(r), final(self).back() as int) == next_bwd(
                old(self).path()@,
                old(self).front() as int,
                old(self).back() as int,
            ),
            r matches Some(x) ==> (x is RootDir <==> x@ == root_bytes()),
            r matches Some(x) ==> kind_ok(x),
    {
        let r = self.next_impl(true);
        proof {
            use_type_invariant(&*self);
        }
        r
    }
}


/// Reading the last component of `s[f..b]` backward: when it is a name, it lies just before
/// separators only, from the new back offset on; when there is none, or it is the root, `s[f..b]`
/// holds separators only.
proof fn lemma_next_bwd_split(s: Seq<u8>, f: int, b: int)
    requires
        0 <= f,
        b <= s.len(),
    ensures
        ({
            let (c, nb) = next_bwd(s, f, b);
            let n = c->0;
            &&& (c is Some && n != root_bytes()) ==> {
                &&& f <= nb
                &&& nb + n.len() <= b
                &&& s.subrange(nb, nb + n.len()) == n
                &&& n.len() > 0
                &&& n[n.len() - 1] != PATH_SEPARATOR
                &&& forall|i: int| nb + n.len() <= i < b ==> s[i] == PATH_SEPARATOR
            }
            &&& !(c is Some && n != root_bytes()) ==> forall|i: int|
                f <= i < b ==> s[i] == PATH_SEPARATOR
        }),
    decreases b - f,
{
    if f < b {
        if s[b - 1] == PATH_SEPARATOR {
            if b - 1 != 0 {
                lemma_next_bwd_split(s, f, b - 1);
            }
        } else {
            lemma_run_bwd_bounds(s, f, b);
            let n = run_bwd(s, f, b);
            assert(n > 0);
            let name = s.subrange(b - n, b);
            if name == root_bytes() {
                assert(name[0] == PATH_SEPARATOR);
            }
        }
    }
}

/// A path is made of its parent ([`Path::parent`]), then its file name ([`Path::file_name`]),
/// then separators only; it has a file name exactly when it holds a byte that is not a separator.
pub proof fn lemma_parent_file_name(s: Seq<u8>)
    ensures
        (exists|i: int| 0 <= i < s.len() && s[i] != PATH_SEPARATOR) <==> (next_bwd(
            s,
            0,
            s.len() as int,
        ).0 is Some && next_bwd(s, 0, s.len() as int).0->0 != root_bytes()),
        next_bwd(s, 0, s.len() as int).0 is Some && next_bwd(s, 0, s.len() as int).0->0
            != root_bytes() ==> {
            let nb = next_bwd(s, 0, s.len() as int).1;
            let c = next_bwd(s, 0, s.len() as int).0->0;
            &&& s == s.subrange(0, nb) + c + s.subrange(nb + c.len(), s.len() as int)
            &&& forall|i: int| nb + c.len() <= i < s.len() ==> s[i] == PATH_SEPARATOR
        },
{
    lemma_next_bwd_split(s, 0, s.len() as int);
    let (c, nb) = next_bwd(s, 0, s.len() as int);
    if c is Some && c->0 != root_bytes() {
        let n = c->0;
        assert(s =~= s.subrange(0, nb) + n + s.subrange(nb + n.len(), s.len() as int));
        assert(s[nb + n.len() - 1] == n[n.len() - 1]);
    }
}

} // verus!
