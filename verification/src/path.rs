use vstd::prelude::*;

use crate::strings;

verus! {

/// A filesystem path, modeled as a sequence of name segments.
///
/// The library never touches the filesystem, so a path is plain data: the
/// caller roots every path at the repository root and an empty path names
/// that root itself. Ordering between paths is lexicographic over segments,
/// with segments compared character by character.
#[derive(Debug)]
pub struct FsPath {
    pub segments: Vec<String>,
}

impl View for FsPath {
    type V = Seq<Seq<char>>;

    open spec fn view(&self) -> Seq<Seq<char>> {
        self.segments@.map_values(|s: String| s@)
    }
}

/// Strict order on characters, by code point.
pub open spec fn char_lt(a: char, b: char) -> bool {
    (a as u32) < (b as u32)
}

/// Strict lexicographic order on strings, by `char_lt`.
pub open spec fn str_lt(a: Seq<char>, b: Seq<char>) -> bool
    decreases a.len(),
{
    if b.len() == 0 {
        false
    } else if a.len() == 0 {
        true
    } else if char_lt(a[0], b[0]) {
        true
    } else if char_lt(b[0], a[0]) {
        false
    } else {
        str_lt(a.drop_first(), b.drop_first())
    }
}

/// Strict lexicographic order on paths: segments are compared by `str_lt`
/// and a proper prefix comes before its extensions.
pub open spec fn path_lt(a: Seq<Seq<char>>, b: Seq<Seq<char>>) -> bool
    decreases a.len(),
{
    if b.len() == 0 {
        false
    } else if a.len() == 0 {
        true
    } else if str_lt(a[0], b[0]) {
        true
    } else if str_lt(b[0], a[0]) {
        false
    } else {
        path_lt(a.drop_first(), b.drop_first())
    }
}

/// `a` names `b` itself or a directory that contains `b`.
pub open spec fn path_prefix_of(a: Seq<Seq<char>>, b: Seq<Seq<char>>) -> bool {
    a.len() <= b.len() && a == b.subrange(0, a.len() as int)
}

/// Characters that neither precede the other are the same character.
pub proof fn lemma_char_lt_connected(x: char, y: char)
    ensures
        !char_lt(x, y) && !char_lt(y, x) ==> x == y,
{
    if !char_lt(x, y) && !char_lt(y, x) {
        vstd::utf8::char_u32_cast(x, x as u32);
        vstd::utf8::char_u32_cast(y, y as u32);
    }
}

pub proof fn lemma_str_lt_connected(a: Seq<char>, b: Seq<char>)
    ensures
        !str_lt(a, b) && !str_lt(b, a) ==> a == b,
    decreases a.len(),
{
    if a.len() > 0 && b.len() > 0 && !str_lt(a, b) && !str_lt(b, a) {
        lemma_char_lt_connected(a[0], b[0]);
        lemma_str_lt_connected(a.drop_first(), b.drop_first());
        assert(a =~= seq![a[0]] + a.drop_first());
        assert(b =~= seq![b[0]] + b.drop_first());
        assert(a == b);
    }
}

pub proof fn lemma_str_lt_irreflexive(a: Seq<char>)
    ensures
        !str_lt(a, a),
    decreases a.len(),
{
    if a.len() > 0 {
        lemma_str_lt_irreflexive(a.drop_first());
    }
}

pub proof fn lemma_str_lt_asymmetric(a: Seq<char>, b: Seq<char>)
    ensures
        str_lt(a, b) ==> !str_lt(b, a),
    decreases a.len(),
{
    if a.len() > 0 && b.len() > 0 {
        lemma_str_lt_asymmetric(a.drop_first(), b.drop_first());
    }
}

pub proof fn lemma_str_lt_transitive(a: Seq<char>, b: Seq<char>, c: Seq<char>)
    requires
        str_lt(a, b),
        str_lt(b, c),
    ensures
        str_lt(a, c),
    decreases a.len(),
{
    if b.len() > 0 && c.len() > 0 {
        if a.len() == 0 {
        } else if !char_lt(a[0], c[0]) && !char_lt(c[0], a[0]) {
            if char_lt(a[0], b[0]) || char_lt(b[0], c[0]) {
                assert(false);
            } else {
                lemma_str_lt_transitive(a.drop_first(), b.drop_first(), c.drop_first());
            }
        } else if char_lt(c[0], a[0]) {
            assert(false);
        }
    }
}

/// Dropping an equal prefix does not change the order.
pub proof fn lemma_str_lt_skip(a: Seq<char>, b: Seq<char>, i: int)
    requires
        0 <= i <= a.len(),
        i <= b.len(),
        forall|j: int| 0 <= j < i ==> a[j] == b[j],
    ensures
        str_lt(a, b) == str_lt(a.skip(i), b.skip(i)),
    decreases i,
{
    if i == 0 {
        assert(a.skip(0) =~= a);
        assert(b.skip(0) =~= b);
    } else {
        assert(a[0] == b[0]);
        assert(!char_lt(a[0], b[0]) && !char_lt(b[0], a[0]));
        lemma_str_lt_skip(a.drop_first(), b.drop_first(), i - 1);
        assert(a.drop_first().skip(i - 1) =~= a.skip(i));
        assert(b.drop_first().skip(i - 1) =~= b.skip(i));
    }
}

pub proof fn lemma_path_lt_connected(a: Seq<Seq<char>>, b: Seq<Seq<char>>)
    ensures
        !path_lt(a, b) && !path_lt(b, a) ==> a == b,
    decreases a.len(),
{
    if a.len() > 0 && b.len() > 0 && !path_lt(a, b) && !path_lt(b, a) {
        lemma_str_lt_connected(a[0], b[0]);
        lemma_path_lt_connected(a.drop_first(), b.drop_first());
        assert(a =~= seq![a[0]] + a.drop_first());
        assert(b =~= seq![b[0]] + b.drop_first());
        assert(a == b);
    }
}

pub proof fn lemma_path_lt_asymmetric(a: Seq<Seq<char>>, b: Seq<Seq<char>>)
    ensures
        path_lt(a, b) ==> !path_lt(b, a),
    decreases a.len(),
{
    if a.len() > 0 && b.len() > 0 {
        lemma_str_lt_asymmetric(a[0], b[0]);
        lemma_path_lt_asymmetric(a.drop_first(), b.drop_first());
    }
}

pub proof fn lemma_path_lt_transitive(a: Seq<Seq<char>>, b: Seq<Seq<char>>, c: Seq<Seq<char>>)
    requires
        path_lt(a, b),
        path_lt(b, c),
    ensures
        path_lt(a, c),
    decreases a.len(),
{
    if b.len() > 0 && c.len() > 0 && a.len() > 0 {
        lemma_str_lt_asymmetric(a[0], b[0]);
        lemma_str_lt_asymmetric(b[0], c[0]);
        if str_lt(b[0], a[0]) || str_lt(c[0], b[0]) {
            assert(false);
        } else if str_lt(a[0], b[0]) {
            if str_lt(b[0], c[0]) {
                lemma_str_lt_transitive(a[0], b[0], c[0]);
            } else {
                lemma_str_lt_connected(b[0], c[0]);
            }
            assert(str_lt(a[0], c[0]));
            lemma_str_lt_asymmetric(a[0], c[0]);
        } else {
            lemma_str_lt_connected(a[0], b[0]);
            if str_lt(b[0], c[0]) {
                assert(str_lt(a[0], c[0]));
                lemma_str_lt_asymmetric(a[0], c[0]);
            } else {
                lemma_str_lt_connected(b[0], c[0]);
                lemma_str_lt_irreflexive(a[0]);
                lemma_path_lt_transitive(a.drop_first(), b.drop_first(), c.drop_first());
            }
        }
    }
}

/// Dropping an equal prefix of segments does not change the order.
pub proof fn lemma_path_lt_skip(a: Seq<Seq<char>>, b: Seq<Seq<char>>, i: int)
    requires
        0 <= i <= a.len(),
        i <= b.len(),
        forall|j: int| 0 <= j < i ==> a[j] == b[j],
    ensures
        path_lt(a, b) == path_lt(a.skip(i), b.skip(i)),
    decreases i,
{
    if i == 0 {
        assert(a.skip(0) =~= a);
        assert(b.skip(0) =~= b);
    } else {
        assert(a[0] == b[0]);
        lemma_str_lt_irreflexive(a[0]);
        lemma_path_lt_skip(a.drop_first(), b.drop_first(), i - 1);
        assert(a.drop_first().skip(i - 1) =~= a.skip(i));
        assert(b.drop_first().skip(i - 1) =~= b.skip(i));
    }
}

/// Compares two string slices in the order of `str_lt`.
pub fn str_lt_exec(a: &str, b: &str) -> (r: bool)
    ensures
        r == str_lt(a@, b@),
{
    let alen = a.unicode_len();
    let blen = b.unicode_len();
    let n = if alen < blen {
        alen
    } else {
        blen
    };
    let mut i: usize = 0;
    while i < n
        invariant
            0 <= i <= n,
            alen == a@.len(),
            blen == b@.len(),
            n == if alen < blen {
                alen
            } else {
                blen
            },
            forall|j: int| 0 <= j < i ==> a@[j] == b@[j],
        decreases n - i,
    {
        let ca = a.get_char(i);
        let cb = b.get_char(i);
        if (ca as u32) < (cb as u32) {
            proof {
                lemma_str_lt_skip(a@, b@, i as int);
            }
            return true;
        }
        if (cb as u32) < (ca as u32) {
            proof {
                lemma_str_lt_skip(a@, b@, i as int);
            }
            return false;
        }
        assert(a@[i as int] == b@[i as int]);
        i = i + 1;
    }
    proof {
        lemma_str_lt_skip(a@, b@, n as int);
    }
    alen < blen
}

impl FsPath {
    /// The empty path: the root itself.
    pub fn new() -> (r: FsPath)
        ensures
            r@ =~= Seq::<Seq<char>>::empty(),
    {
        FsPath { segments: Vec::new() }
    }

    pub fn from_segments(segments: Vec<String>) -> (r: FsPath)
        ensures
            r@ == segments@.map_values(|s: String| s@),
    {
        FsPath { segments }
    }

    pub fn len(&self) -> (r: usize)
        ensures
            r == self@.len(),
    {
        self.segments.len()
    }

    /// Extends the path by one segment.
    pub fn push(&mut self, segment: String)
        ensures
            final (self)@ =~= old(self)@.push(segment@),
    {
        self.segments.push(segment);
        assert(self.segments@.map_values(|s: String| s@) =~= old(
            self,
        ).segments@.map_values(|s: String| s@).push(segment@));
    }

    /// The path without its last segment.
    pub fn parent(&self) -> (r: FsPath)
        requires
            self@.len() > 0,
        ensures
            r@ =~= self@.drop_last(),
    {
        let mut segments = clone_segments(&self.segments);
        let _last = segments.pop();
        let r = FsPath { segments };
        assert(r@ =~= self@.drop_last());
        r
    }

    /// The first `n` segments.
    pub fn prefix(&self, n: usize) -> (r: FsPath)
        requires
            n <= self@.len(),
        ensures
            r@ =~= self@.subrange(0, n as int),
    {
        let mut segments: Vec<String> = Vec::new();
        let mut i: usize = 0;
        while i < n
            invariant
                0 <= i <= n,
                n <= self.segments@.len(),
                segments@.len() == i,
                forall|j: int| 0 <= j < i ==> #[trigger] segments@[j]@ == self.segments@[j]@,
            decreases n - i,
        {
            let s: &String = &self.segments[i];
            segments.push(clone_string(s));
            i = i + 1;
        }
        let r = FsPath { segments };
        assert(r@ =~= self@.subrange(0, n as int));
        r
    }

    pub fn eq_path(&self, other: &FsPath) -> (r: bool)
        ensures
            r == (self@ == other@),
    {
        let n = self.segments.len();
        if n != other.segments.len() {
            assert(self@.len() != other@.len());
            return false;
        }
        let mut i: usize = 0;
        while i < n
            invariant
                0 <= i <= n,
                n == self@.len() == other@.len(),
                forall|j: int| 0 <= j < i ==> self@[j] == other@[j],
            decreases n - i,
        {
            if !strings::str_eq(self.segments[i].as_str(), other.segments[i].as_str()) {
                assert(self@[i as int] != other@[i as int]);
                return false;
            }
            i = i + 1;
        }
        proof {
            assert(self@ =~= other@);
        }
        true
    }

    /// Compares two paths in the order of `path_lt`.
    pub fn lt(&self, other: &FsPath) -> (r: bool)
        ensures
            r == path_lt(self@, other@),
    {
        let alen = self.segments.len();
        let blen = other.segments.len();
        let n = if alen < blen {
            alen
        } else {
            blen
        };
        let mut i: usize = 0;
        while i < n
            invariant
                0 <= i <= n,
                alen == self@.len(),
                blen == other@.len(),
                n == if alen < blen {
                    alen
                } else {
                    blen
                },
                forall|j: int| 0 <= j < i ==> self@[j] == other@[j],
            decreases n - i,
        {
            let sa = self.segments[i].as_str();
            let sb = other.segments[i].as_str();
            if str_lt_exec(sa, sb) {
                proof {
                    lemma_path_lt_skip(self@, other@, i as int);
                }
                return true;
            }
            if str_lt_exec(sb, sa) {
                proof {
                    lemma_path_lt_skip(self@, other@, i as int);
                }
                return false;
            }
            proof {
                lemma_str_lt_connected(self@[i as int], other@[i as int]);
            }
            i = i + 1;
        }
        proof {
            lemma_path_lt_skip(self@, other@, n as int);
        }
        alen < blen
    }

    /// Whether `self` names `other` or one of its ancestors.
    pub fn is_prefix_of(&self, other: &FsPath) -> (r: bool)
        ensures
            r == path_prefix_of(self@, other@),
    {
        let n = self.segments.len();
        if n > other.segments.len() {
            return false;
        }
        let mut i: usize = 0;
        while i < n
            invariant
                0 <= i <= n,
                n == self@.len(),
                n <= other@.len(),
                forall|j: int| 0 <= j < i ==> self@[j] == other@[j],
            decreases n - i,
        {
            if !strings::str_eq(self.segments[i].as_str(), other.segments[i].as_str()) {
                assert(self@[i as int] != other@.subrange(0, n as int)[i as int]);
                return false;
            }
            i = i + 1;
        }
        proof {
            assert(self@ =~= other@.subrange(0, n as int));
        }
        true
    }

    /// `self` extended by all segments of `other`.
    pub fn join(&self, other: &FsPath) -> (r: FsPath)
        ensures
            r@ =~= self@ + other@,
    {
        let mut segments = clone_segments(&self.segments);
        let mut i: usize = 0;
        while i < other.segments.len()
            invariant
                0 <= i <= other.segments@.len(),
                segments@.len() == self.segments@.len() + i,
                forall|j: int|
                    0 <= j < self.segments@.len() ==> #[trigger] segments@[j]@
                        == self.segments@[j]@,
                forall|j: int|
                    self.segments@.len() <= j < segments@.len() ==> #[trigger] segments@[j]@
                        == other.segments@[j - self.segments@.len()]@,
            decreases other.segments@.len() - i,
        {
            segments.push(clone_string(&other.segments[i]));
            i = i + 1;
        }
        let r = FsPath { segments };
        assert(r@ =~= self@ + other@);
        r
    }

    /// The path as text, segments joined by `/`; the empty path is `.`.
    pub fn display(&self) -> (r: String)
        ensures
            r@ == path_display(self@),
    {
        if self.segments.len() == 0 {
            let r = ".".to_owned();
            return r;
        }
        let mut r = clone_string(&self.segments[0]);
        let mut i: usize = 1;
        while i < self.segments.len()
            invariant
                1 <= i <= self@.len(),
                self@.len() > 0,
                r@ == join_from(self@, i as int),
            decreases self@.len() - i,
        {
            r.append("/");
            r.append(self.segments[i].as_str());
            i = i + 1;
        }
        r
    }
}

/// The text form of a path: segments joined by `/`, or `.` for the root.
pub open spec fn path_display(p: Seq<Seq<char>>) -> Seq<char> {
    if p.len() == 0 {
        "."@
    } else {
        join_from(p, p.len() as int)
    }
}

/// The first `n` segments joined by `/`; `n` is at least 1.
pub open spec fn join_from(p: Seq<Seq<char>>, n: int) -> Seq<char>
    decreases n,
{
    if n <= 1 {
        p[0]
    } else {
        join_from(p, n - 1) + "/"@ + p[n - 1]
    }
}

impl Clone for FsPath {
    fn clone(&self) -> (r: Self)
        ensures
            r@ == self@,
    {
        let segments = clone_segments(&self.segments);
        let r = FsPath { segments };
        assert(r@ =~= self@);
        r
    }
}

/// Copies a string; the copy reads the same.
pub fn clone_string(s: &String) -> (r: String)
    ensures
        r@ == s@,
{
    s.clone()
}

/// Copies a list of strings element by element.
pub fn clone_segments(v: &Vec<String>) -> (r: Vec<String>)
    ensures
        r@.map_values(|s: String| s@) =~= v@.map_values(|s: String| s@),
        r@.len() == v@.len(),
        forall|j: int| 0 <= j < v@.len() ==> #[trigger] r@[j]@ == v@[j]@,
{
    let mut r: Vec<String> = Vec::new();
    let mut i: usize = 0;
    while i < v.len()
        invariant
            0 <= i <= v@.len(),
            r@.len() == i,
            forall|j: int| 0 <= j < i ==> #[trigger] r@[j]@ == v@[j]@,
        decreases v@.len() - i,
    {
        r.push(v[i].clone());
        i = i + 1;
    }
    assert(r@.map_values(|s: String| s@) =~= v@.map_values(|s: String| s@));
    r
}

} // verus!
