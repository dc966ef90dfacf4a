use vstd::prelude::*;

verus! {

/// An ASCII decimal digit.
pub open spec fn is_digit(c: char) -> bool {
    '0' <= c && c <= '9'
}

/// Every character of `s[start..end)` is a digit, and there are one or two of them.
pub open spec fn short_number(s: Seq<char>, start: int, end: int) -> bool {
    &&& 0 <= start
    &&& end <= s.len()
    &&& 1 <= end - start <= 2
    &&& forall|i: int| start <= i < end ==> is_digit(#[trigger] s[i])
}

/// Index of the dot that introduces the patch component of a version string,
/// or the string's length when it has only two components.
pub open spec fn patch_dot(s: Seq<char>) -> int {
    if 3 < s.len() && s[3] == '.' {
        3
    } else if 4 < s.len() && s[4] == '.' {
        4
    } else {
        s.len() as int
    }
}

/// A version string of the shape `1.M` or `1.M.P`, where `M` and `P` are one or two digits.
pub open spec fn valid_version(s: Seq<char>) -> bool {
    let d = patch_dot(s);
    &&& s.len() >= 3
    &&& s[0] == '1'
    &&& s[1] == '.'
    &&& short_number(s, 2, d)
    &&& (d == s.len() || short_number(s, d + 1, s.len() as int))
}

/// `p` occurs in `c` starting at index `i`.
pub open spec fn occurs_at(c: Seq<char>, p: Seq<char>, i: int) -> bool {
    0 <= i && i + p.len() <= c.len() && c.subrange(i, i + p.len()) == p
}

/// `p` occurs somewhere in `c`.
pub open spec fn contains(c: Seq<char>, p: Seq<char>) -> bool {
    exists|i: int| occurs_at(c, p, i)
}

/// What may follow a two-component version inside a candidate, with the version ending at
/// index `e`: the end of the candidate, or a non-digit followed by a digit or the wildcard `x`.
pub open spec fn minor_boundary(c: Seq<char>, e: int) -> bool {
    e == c.len() || (e + 1 < c.len() && !is_digit(c[e]) && (is_digit(c[e + 1]) || c[e + 1]
        == 'x'))
}

/// `base` occurs in `c` at a place where it is followed by a minor boundary.
pub open spec fn two_part_match(c: Seq<char>, base: Seq<char>) -> bool {
    exists|i: int| #[trigger] occurs_at(c, base, i) && minor_boundary(c, i + base.len())
}

/// `base.patch`, as one string.
pub open spec fn with_patch(base: Seq<char>, patch: Seq<char>) -> Seq<char> {
    base + seq!['.'] + patch
}

/// Decides whether a candidate release string denotes a build of a target game version.
///
/// `base` is the `X.Y` part of the target and `patch` its third component, if it has one.
pub struct VersionMatcher {
    base: Vec<char>,
    patch: Option<Vec<char>>,
}

impl VersionMatcher {
    pub closed spec fn base_spec(&self) -> Seq<char> {
        self.base@
    }

    pub closed spec fn patch_spec(&self) -> Option<Seq<char>> {
        match self.patch {
            Some(p) => Some(p@),
            None => None,
        }
    }

    /// Whether the candidate `c` is compatible with the target.
    ///
    /// With a three-component target `X.Y.Z`, `c` must contain `X.Y.Z` or `X.Y.x`.
    /// With a two-component target `X.Y`, `c` must contain `X.Y` followed by its end or by a
    /// non-digit and then a digit or `x`.
    pub open spec fn accepts(&self, c: Seq<char>) -> bool {
        match self.patch_spec() {
            Some(z) => contains(c, with_patch(self.base_spec(), z)) || contains(
                c,
                with_patch(self.base_spec(), seq!['x']),
            ),
            None => two_part_match(c, self.base_spec()),
        }
    }

    /// `m` is the matcher for the target `t`: `base` is `t` up to its second dot, `patch`
    /// what follows that dot.
    pub open spec fn new_spec(t: Seq<char>, m: VersionMatcher) -> bool {
        let d = patch_dot(t);
        &&& m.base_spec() == t.subrange(0, d)
        &&& m.patch_spec() == if d == t.len() {
            None
        } else {
            Some(t.subrange(d + 1, t.len() as int))
        }
    }

    /// The matcher for a target version string; `None` when the string is not a valid version.
    pub fn new(target: &str) -> (r: Option<VersionMatcher>)
        ensures
            r is Some <==> valid_version(target@),
            r matches Some(m) ==> Self::new_spec(target@, m),
    {
        let s = chars_of(target);
        let n = s.len();
        if n < 3 || s[0] != '1' || s[1] != '.' {
            return None;
        }
        let d: usize = if 3 < n && s[3] == '.' {
            3
        } else if 4 < n && s[4] == '.' {
            4
        } else {
            n
        };
        if !is_short_number(&s, 2, d) {
            return None;
        }
        if d < n && !is_short_number(&s, d + 1, n) {
            return None;
        }
        let base = slice_of(&s, 0, d);
        let patch = if d == n {
            None
        } else {
            Some(slice_of(&s, d + 1, n))
        };
        Some(VersionMatcher { base, patch })
    }

    /// Whether `candidate` denotes a build compatible with the target.
    pub fn matches(&self, candidate: &str) -> (r: bool)
        ensures
            r == self.accepts(candidate@),
    {
        let c = chars_of(candidate);
        match &self.patch {
            Some(z) => {
                let mut exact = self.base.clone();
                exact.push('.');
                let mut k: usize = 0;
                while k < z.len()
                    invariant
                        k <= z@.len(),
                        exact@ == self.base@ + seq!['.'] + z@.subrange(0, k as int),
                    decreases z.len() - k,
                {
                    exact.push(z[k]);
                    k += 1;
                    proof {
                        assert(z@.subrange(0, k as int) == z@.subrange(0, k - 1) + seq![
                            z@[k - 1],
                        ]);
                    }
                }
                assert(z@.subrange(0, z@.len() as int) == z@);
                let mut wild = self.base.clone();
                wild.push('.');
                wild.push('x');
                assert(wild@ == with_patch(self.base@, seq!['x']));
                contains_exec(&c, &exact) || contains_exec(&c, &wild)
            },
            None => two_part_exec(&c, &self.base),
        }
    }
}

/// The characters of `s`.
pub(crate) fn chars_of(s: &str) -> (r: Vec<char>)
    ensures
        r@ == s@,
{
    let n = s.unicode_len();
    let mut r: Vec<char> = Vec::new();
    let mut i: usize = 0;
    while i < n
        invariant
            n == s@.len(),
            i <= n,
            r@ == s@.subrange(0, i as int),
        decreases n - i,
    {
        r.push(s.get_char(i));
        i += 1;
        proof {
            assert(s@.subrange(0, i as int) == s@.subrange(0, i - 1) + seq![s@[i - 1]]);
        }
    }
    assert(s@.subrange(0, n as int) == s@);
    r
}

/// Whether `a` and `b` hold the same characters.
pub(crate) fn same_text(a: &str, b: &str) -> (r: bool)
    ensures
        r == (a@ == b@),
{
    let x = chars_of(a);
    let y = chars_of(b);
    if x.len() != y.len() {
        return false;
    }
    let mut i: usize = 0;
    while i < x.len()
        invariant
            x@ == a@,
            y@ == b@,
            x@.len() == y@.len(),
            i <= x@.len(),
            forall|j: int| 0 <= j < i ==> x@[j] == y@[j],
        decreases x.len() - i,
    {
        if x[i] != y[i] {
            assert(x@[i as int] != y@[i as int]);
            return false;
        }
        i += 1;
    }
    assert(x@ == y@);
    true
}

/// A copy of `s[start..end)`.
pub(crate) fn slice_of(s: &Vec<char>, start: usize, end: usize) -> (r: Vec<char>)
    requires
        start <= end <= s@.len(),
    ensures
        r@ == s@.subrange(start as int, end as int),
{
    let mut r: Vec<char> = Vec::new();
    let mut i: usize = start;
    while i < end
        invariant
            start <= i <= end,
            end <= s@.len(),
            r@ == s@.subrange(start as int, i as int),
        decreases end - i,
    {
        r.push(s[i]);
        i += 1;
        proof {
            assert(s@.subrange(start as int, i as int) == s@.subrange(start as int, i - 1)
                + seq![s@[i - 1]]);
        }
    }
    r
}

fn is_digit_exec(c: char) -> (r: bool)
    ensures
        r == is_digit(c),
{
    '0' <= c && c <= '9'
}

fn is_short_number(s: &Vec<char>, start: usize, end: usize) -> (r: bool)
    requires
        start <= s@.len(),
        end <= s@.len(),
    ensures
        r == short_number(s@, start as int, end as int),
{
    if end <= start || end - start > 2 {
        return false;
    }
    let mut i: usize = start;
    while i < end
        invariant
            start <= i <= end,
            end <= s@.len(),
            forall|j: int| start <= j < i ==> is_digit(#[trigger] s@[j]),
        decreases end - i,
    {
        if !is_digit_exec(s[i]) {
            return false;
        }
        i += 1;
    }
    true
}

fn occurs_at_exec(c: &Vec<char>, p: &Vec<char>, i: usize) -> (r: bool)
    requires
        i <= c@.len(),
    ensures
        r == occurs_at(c@, p@, i as int),
{
    if p.len() > c.len() - i {
        return false;
    }
    let cl = c.len();
    let mut k: usize = 0;
    while k < p.len()
        invariant
            cl == c@.len(),
            k <= p@.len(),
            i <= c@.len(),
            i + p@.len() <= c@.len(),
            forall|j: int| 0 <= j < k ==> c@[i + j] == p@[j],
        decreases p.len() - k,
    {
        if c[i + k] != p[k] {
            assert(c@.subrange(i as int, i + p@.len())[k as int] != p@[k as int]);
            return false;
        }
        k += 1;
    }
    assert(c@.subrange(i as int, i + p@.len()) == p@);
    true
}

fn contains_exec(c: &Vec<char>, p: &Vec<char>) -> (r: bool)
    ensures
        r == contains(c@, p@),
{
    if p.len() > c.len() {
        assert(forall|i: int| !occurs_at(c@, p@, i));
        return false;
    }
    let last = c.len() - p.len();
    let mut i: usize = 0;
    while i < last
        invariant
            p@.len() <= c@.len(),
            last == c@.len() - p@.len(),
            i <= last,
            forall|j: int| 0 <= j < i ==> !occurs_at(c@, p@, j),
        decreases last - i,
    {
        if occurs_at_exec(c, p, i) {
            return true;
        }
        i += 1;
    }
    if occurs_at_exec(c, p, last) {
        return true;
    }
    assert(forall|j: int| !occurs_at(c@, p@, j)) by {
        assert(forall|j: int| j > last ==> !occurs_at(c@, p@, j));
    }
    false
}

fn minor_boundary_exec(c: &Vec<char>, e: usize) -> (r: bool)
    requires
        e <= c@.len(),
    ensures
        r == minor_boundary(c@, e as int),
{
    if e == c.len() {
        return true;
    }
    e + 1 < c.len() && !is_digit_exec(c[e]) && (is_digit_exec(c[e + 1]) || c[e + 1] == 'x')
}

fn two_part_exec(c: &Vec<char>, base: &Vec<char>) -> (r: bool)
    ensures
        r == two_part_match(c@, base@),
{
    if base.len() > c.len() {
        assert(forall|i: int| !occurs_at(c@, base@, i));
        return false;
    }
    let last = c.len() - base.len();
    let cl = c.len();
    let mut i: usize = 0;
    while i < last
        invariant
            cl == c@.len(),
            base@.len() <= c@.len(),
            last == c@.len() - base@.len(),
            i <= last,
            forall|j: int|
                0 <= j < i ==> !(#[trigger] occurs_at(c@, base@, j) && minor_boundary(
                    c@,
                    j + base@.len(),
                )),
        decreases last - i,
    {
        if occurs_at_exec(c, base, i) && minor_boundary_exec(c, i + base.len()) {
            return true;
        }
        i += 1;
    }
    if occurs_at_exec(c, base, last) && minor_boundary_exec(c, c.len()) {
        return true;
    }
    assert(forall|j: int| j > last ==> !occurs_at(c@, base@, j));
    false
}

/// Law of the matcher for a three-component target `A.B.C`: every candidate that contains
/// `A.B.C` matches, and `A.B.d` with a single digit `d` other than `C` does not.
pub proof fn lemma_three_part_target(t: Seq<char>, m: VersionMatcher, c: Seq<char>, d: char)
    requires
        valid_version(t),
        VersionMatcher::new_spec(t, m),
        patch_dot(t) < t.len(),
    ensures
        contains(c, t) ==> m.accepts(c),
        is_digit(d) && seq![d] != t.subrange(patch_dot(t) + 1, t.len() as int) ==> !m.accepts(
            with_patch(m.base_spec(), seq![d]),
        ),
{
    let k = patch_dot(t);
    let base = t.subrange(0, k);
    let z = t.subrange(k + 1, t.len() as int);
    assert(t =~= with_patch(base, z));
    if is_digit(d) && seq![d] != z {
        let c2 = with_patch(base, seq![d]);
        let p = with_patch(base, z);
        let w = with_patch(base, seq!['x']);
        assert(c2.len() == base.len() + 2);
        assert forall|i: int| !occurs_at(c2, p, i) by {
            if occurs_at(c2, p, i) {
                assert(z.len() == 1);
                assert(i == 0);
                assert(c2.subrange(0, c2.len() as int) =~= c2);
                assert(c2[c2.len() - 1] == p[p.len() - 1]);
                assert(seq![d] =~= z);
            }
        }
        assert forall|i: int| !occurs_at(c2, w, i) by {
            if occurs_at(c2, w, i) {
                assert(i == 0);
                assert(c2.subrange(0, c2.len() as int) =~= c2);
                assert(c2[c2.len() - 1] == w[w.len() - 1]);
            }
        }
    }
}

/// Law of the matcher for a two-component target `A.B`: `A.B` and `A.B.d` match for a digit
/// `d`, while `A.Bd` and every other two-component version `A.C` do not.
pub proof fn lemma_two_part_target(t: Seq<char>, m: VersionMatcher, d: char, c: Seq<char>)
    requires
        valid_version(t),
        VersionMatcher::new_spec(t, m),
        patch_dot(t) == t.len(),
    ensures
        m.accepts(t),
        is_digit(d) ==> m.accepts(t + seq!['.', d]),
        is_digit(d) ==> !m.accepts(t + seq![d]),
        valid_version(c) && patch_dot(c) == c.len() && c != t ==> !m.accepts(c),
{
    assert(m.base_spec() =~= t);
    assert(t.subrange(0, t.len() as int) =~= t);
    assert(occurs_at(t, t, 0));
    assert(minor_boundary(t, t.len() as int));
    if is_digit(d) {
        let c1 = t + seq!['.', d];
        assert(c1.subrange(0, t.len() as int) =~= t);
        assert(occurs_at(c1, t, 0));
        assert(c1[t.len() as int] == '.');
        assert(minor_boundary(c1, t.len() as int));
        let c2 = t + seq![d];
        assert forall|i: int| !(#[trigger] occurs_at(c2, t, i) && minor_boundary(c2, i + t.len()))
            by {
            if occurs_at(c2, t, i) && i == 1 {
                assert(c2.subrange(1, 1 + t.len() as int)[0] == t[0]);
                assert(c2[1] == t[1]);
            }
        }
    }
    if valid_version(c) && patch_dot(c) == c.len() && c != t {
        assert forall|i: int| !(#[trigger] occurs_at(c, t, i) && minor_boundary(c, i + t.len()))
            by {
            if occurs_at(c, t, i) {
                if i == 0 && t.len() == c.len() {
                    assert(c.subrange(0, c.len() as int) =~= c);
                } else if i >= 1 {
                    assert(c.subrange(i, i + t.len())[0] == t[0]);
                }
            }
        }
    }
}

} // verus!
