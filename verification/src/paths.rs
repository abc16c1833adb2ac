//! Paths compared the way `Path` compares them on Unix: by their parts, so
//! that `a//b`, `a/./b` and `a/b/` all name the same path as `a/b`.
use vstd::prelude::*;
use crate::unique::{dedup_by, has_key, texts};

verus! {

/// The parts of a path: whether it starts at the root, whether it starts
/// with a `.` of its own (`.` or `./…`, when not at the root), and its named
/// parts in order (`..` included), without empty or `.` parts.
pub struct PathKey {
    pub absolute: bool,
    pub leading_dot: bool,
    pub parts: Seq<Seq<char>>,
}

/// A part as it counts: none when empty or `.`.
pub open spec fn kept_part(c: Seq<char>) -> Seq<Seq<char>> {
    if c.len() == 0 || c == seq!['.'] {
        Seq::empty()
    } else {
        seq![c]
    }
}

/// The parts of `s`, where the part being read so far is `cur`.
pub open spec fn parts_from(s: Seq<char>, cur: Seq<char>) -> Seq<Seq<char>>
    decreases s.len(),
{
    if s.len() == 0 {
        kept_part(cur)
    } else if s[0] == '/' {
        kept_part(cur) + parts_from(s.drop_first(), Seq::empty())
    } else {
        parts_from(s.drop_first(), cur.push(s[0]))
    }
}

/// The parts of path `p`.
pub open spec fn path_key(p: Seq<char>) -> PathKey {
    let absolute = p.len() > 0 && p[0] == '/';
    PathKey {
        absolute,
        leading_dot: !absolute && p.len() > 0 && p[0] == '.' && (p.len() == 1 || p[1] == '/'),
        parts: parts_from(p, Seq::empty()),
    }
}

/// Reading a path by its parts, as a function.
pub open spec fn path_key_fn() -> spec_fn(Seq<char>) -> PathKey {
    |p: Seq<char>| path_key(p)
}

/// The parts of a path, as values a program holds.
pub struct PathParts {
    pub absolute: bool,
    pub leading_dot: bool,
    pub parts: Vec<String>,
}

impl View for PathParts {
    type V = PathKey;

    open spec fn view(&self) -> PathKey {
        PathKey { absolute: self.absolute, leading_dot: self.leading_dot, parts: texts(self.parts@) }
    }
}

fn push_part(parts: &mut Vec<String>, p: &str, from: usize, to: usize)
    requires
        from <= to <= p@.len(),
    ensures
        texts(final(parts)@) == texts(old(parts)@) + kept_part(p@.subrange(from as int, to as int)),
{
    let part = p.substring_char(from, to);
    let keep = if part.unicode_len() == 0 {
        false
    } else if part.unicode_len() == 1 && part.get_char(0) == '.' {
        assert(part@ =~= seq!['.']);
        false
    } else {
        true
    };
    if keep {
        let ghost prev = parts@;
        parts.push(String::from_str(part));
        assert forall|j: int| 0 <= j < prev.len() implies #[trigger] texts(parts@)[j] == texts(prev)[j] by {
            assert(parts@[j] == prev[j]);
        }
        assert(texts(parts@) =~= texts(prev) + kept_part(p@.subrange(from as int, to as int)));
    } else {
        assert(texts(parts@) =~= texts(old(parts)@) + kept_part(p@.subrange(from as int, to as int)));
    }
}

/// The parts of path `p`.
pub fn path_parts(p: &str) -> (r: PathParts)
    ensures
        r@ == path_key(p@),
{
    let n = p.unicode_len();
    let absolute = n > 0 && p.get_char(0) == '/';
    let leading_dot = !absolute && n > 0 && p.get_char(0) == '.' && (n == 1 || p.get_char(1) == '/');
    let mut parts: Vec<String> = Vec::new();
    let mut seg: usize = 0;
    let mut i: usize = 0;
    assert(p@.subrange(0, n as int) =~= p@);
    assert(p@.subrange(0, 0) =~= Seq::<char>::empty());
    while i < n
        invariant
            n == p@.len(),
            seg <= i <= n,
            parts_from(p@, Seq::empty()) == texts(parts@) + parts_from(
                p@.subrange(i as int, n as int),
                p@.subrange(seg as int, i as int),
            ),
        decreases n - i,
    {
        let ghost rest = p@.subrange(i as int, n as int);
        let ghost cur = p@.subrange(seg as int, i as int);
        assert(rest.drop_first() =~= p@.subrange(i + 1, n as int));
        assert(rest[0] == p@[i as int]);
        if p.get_char(i) == '/' {
            let ghost before = texts(parts@);
            push_part(&mut parts, p, seg, i);
            assert(p@.subrange(i + 1, i + 1) =~= Seq::<char>::empty());
            assert(texts(parts@) + parts_from(p@.subrange(i + 1, n as int), Seq::empty()) =~= before + (
            kept_part(cur) + parts_from(rest.drop_first(), Seq::empty())));
            seg = i + 1;
        } else {
            assert(cur.push(p@[i as int]) =~= p@.subrange(seg as int, i + 1));
        }
        i = i + 1;
    }
    let ghost before = texts(parts@);
    push_part(&mut parts, p, seg, n);
    assert(p@.subrange(n as int, n as int) =~= Seq::<char>::empty());
    assert(texts(parts@) =~= parts_from(p@, Seq::empty()));
    PathParts { absolute, leading_dot, parts }
}

fn same_texts(a: &Vec<String>, b: &Vec<String>) -> (r: bool)
    ensures
        r == (texts(a@) == texts(b@)),
{
    if a.len() != b.len() {
        assert(texts(a@).len() != texts(b@).len());
        return false;
    }
    let mut k: usize = 0;
    while k < a.len()
        invariant
            a.len() == b.len(),
            k <= a.len(),
            forall|j: int| 0 <= j < k ==> a@[j]@ == b@[j]@,
        decreases a.len() - k,
    {
        if a[k] != b[k] {
            assert(texts(a@)[k as int] != texts(b@)[k as int]);
            return false;
        }
        k = k + 1;
    }
    assert(texts(a@) =~= texts(b@));
    true
}

/// Whether `a` and `b` name the same path.
pub fn same_path(a: &str, b: &str) -> (r: bool)
    ensures
        r == (path_key(a@) == path_key(b@)),
{
    let x = path_parts(a);
    let y = path_parts(b);
    x.absolute == y.absolute && x.leading_dot == y.leading_dot && same_texts(&x.parts, &y.parts)
}

/// Whether some entry of `v` names the same path as `p`.
pub fn has_same_path(v: &Vec<String>, p: &String) -> (r: bool)
    ensures
        r == has_key(texts(v@), path_key_fn(), path_key(p@)),
{
    let mut k: usize = 0;
    while k < v.len()
        invariant
            k <= v.len(),
            forall|j: int| 0 <= j < k ==> path_key(v@[j]@) != path_key(p@),
        decreases v.len() - k,
    {
        if same_path(v[k].as_str(), p.as_str()) {
            assert(path_key_fn()(texts(v@)[k as int]) == path_key(p@));
            return true;
        }
        k = k + 1;
    }
    proof {
        if has_key(texts(v@), path_key_fn(), path_key(p@)) {
            let j = choose|j: int| 0 <= j < texts(v@).len() && path_key_fn()(#[trigger] texts(v@)[j]) == path_key(p@);
            assert(path_key(v@[j]@) == path_key(p@));
        }
    }
    false
}

/// The paths of `v` in order, each kept only when no earlier one names the
/// same path.
pub fn dedup_paths(v: &Vec<String>) -> (r: Vec<String>)
    ensures
        texts(r@) == dedup_by(texts(v@), path_key_fn()),
{
    let mut out: Vec<String> = Vec::new();
    let mut i: usize = 0;
    while i < v.len()
        invariant
            i <= v.len(),
            texts(out@) == dedup_by(texts(v@).take(i as int), path_key_fn()),
        decreases v.len() - i,
    {
        let ghost pre = texts(v@).take(i as int);
        let ghost next = texts(v@).take(i + 1);
        assert(next.drop_last() =~= pre);
        assert(next.last() == v@[i as int]@);
        proof {
            crate::unique::lemma_dedup_by_keys(pre, path_key_fn(), path_key(v@[i as int]@));
        }
        if !has_same_path(&out, &v[i]) {
            let ghost prev = out@;
            out.push(v[i].clone());
            assert forall|j: int| 0 <= j < prev.len() implies #[trigger] texts(out@)[j] == texts(prev)[j] by {
                assert(out@[j] == prev[j]);
            }
            assert(texts(out@) =~= dedup_by(pre, path_key_fn()).push(v@[i as int]@));
        }
        i = i + 1;
    }
    assert(texts(v@).take(v.len() as int) =~= texts(v@));
    out
}

} // verus!
