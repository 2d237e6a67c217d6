//! Paths as plain strings, with the Unix path rules of the extension's
//! WASI target: `/` is the only separator, a leading `/` is the root, and
//! empty and `.` components are ignored (a leading `./` excepted).

use vstd::prelude::*;
use crate::text::chars_of;

verus! {

/// The path starts at the filesystem root.
pub open spec fn has_root(p: Seq<char>) -> bool {
    p.len() > 0 && p[0] == '/'
}

/// The path is relative and starts with a `.` component (`.` or `./...`).
pub open spec fn starts_with_cur_dir(p: Seq<char>) -> bool {
    &&& !has_root(p)
    &&& p.len() > 0
    &&& p[0] == '.'
    &&& (p.len() == 1 || p[1] == '/')
}

/// Length of what precedes the ordinary components: the root, or a leading `.`.
pub open spec fn lead_len(p: Seq<char>) -> int {
    if has_root(p) || starts_with_cur_dir(p) {
        1
    } else {
        0
    }
}

/// End of `p[..hi]` once the trailing components that are empty or `.`
/// (and lie at or after `lo`) are dropped with their separators.
pub open spec fn trim_end(p: Seq<char>, lo: int, hi: int) -> int
    decreases hi - lo,
{
    if hi <= lo {
        hi
    } else if p[hi - 1] == '/' {
        trim_end(p, lo, hi - 1)
    } else if p[hi - 1] == '.' && (hi - 1 == lo || p[hi - 2] == '/') {
        trim_end(p, lo, hi - 1)
    } else {
        hi
    }
}

/// Start of the component of `p` that ends at `hi` (never before `lo`).
pub open spec fn comp_start(p: Seq<char>, lo: int, hi: int) -> int
    decreases hi - lo,
{
    if hi <= lo {
        lo
    } else if p[hi - 1] == '/' {
        hi
    } else {
        comp_start(p, lo, hi - 1)
    }
}

/// End of the last ordinary component of `p`.
pub open spec fn body_end(p: Seq<char>) -> int {
    trim_end(p, lead_len(p), p.len() as int)
}

/// The parent directory of `p`, as `Path::parent` gives it: `None` for the
/// root alone and for the empty path, the empty path for a single relative
/// component.
pub open spec fn path_parent(p: Seq<char>) -> Option<Seq<char>> {
    let lo = lead_len(p);
    let b = body_end(p);
    if b > lo {
        let k = comp_start(p, lo, b);
        let e = if k > lo {
            k - 1
        } else {
            lo
        };
        Some(p.subrange(0, trim_end(p, lo, e)))
    } else if starts_with_cur_dir(p) {
        Some(Seq::empty())
    } else {
        None
    }
}

/// The last ordinary component of `p`, unless it is `..`.
pub open spec fn file_name(p: Seq<char>) -> Option<Seq<char>> {
    let lo = lead_len(p);
    let b = body_end(p);
    if b > lo {
        let c = p.subrange(comp_start(p, lo, b), b);
        if c == seq!['.', '.'] {
            None
        } else {
            Some(c)
        }
    } else {
        None
    }
}

/// Index of the last `.` in `s[..hi]`, or -1.
pub open spec fn last_dot(s: Seq<char>, hi: int) -> int
    decreases hi,
{
    if hi <= 0 {
        -1
    } else if s[hi - 1] == '.' {
        hi - 1
    } else {
        last_dot(s, hi - 1)
    }
}

/// The extension of `p`: what follows the last `.` of its file name, when
/// that `.` is not the name's first character.
pub open spec fn extension(p: Seq<char>) -> Option<Seq<char>> {
    match file_name(p) {
        Some(n) => {
            let d = last_dot(n, n.len() as int);
            if d > 0 {
                Some(n.subrange(d + 1, n.len() as int))
            } else {
                None
            }
        },
        None => None,
    }
}

/// `base` joined with `seg`, as `Path::join` does it: an absolute `seg`
/// replaces `base`, otherwise a `/` is put between them unless `base` is
/// empty or already ends with one.
pub open spec fn path_join(base: Seq<char>, seg: Seq<char>) -> Seq<char> {
    if has_root(seg) {
        seg
    } else if base.len() > 0 && base.last() != '/' {
        base + seq!['/'] + seg
    } else {
        base + seg
    }
}

/// The view of an optional string.
pub open spec fn opt_view(o: Option<String>) -> Option<Seq<char>> {
    match o {
        Some(s) => Some(s@),
        None => None,
    }
}

proof fn lemma_trim_end_bounds(p: Seq<char>, lo: int, hi: int)
    requires
        0 <= lo,
        hi <= p.len(),
    ensures
        hi <= lo ==> trim_end(p, lo, hi) == hi,
        hi > lo ==> lo <= trim_end(p, lo, hi) <= hi,
    decreases hi - lo,
{
    if hi > lo {
        lemma_trim_end_bounds(p, lo, hi - 1);
    }
}

proof fn lemma_comp_start_bounds(p: Seq<char>, lo: int, hi: int)
    requires
        0 <= lo <= hi <= p.len(),
    ensures
        lo <= comp_start(p, lo, hi) <= hi,
        comp_start(p, lo, hi) > lo ==> p[comp_start(p, lo, hi) - 1] == '/',
    decreases hi - lo,
{
    if hi > lo && p[hi - 1] != '/' {
        lemma_comp_start_bounds(p, lo, hi - 1);
    }
}

/// A parent is strictly shorter than its path, so it never equals it and
/// climbing from parent to parent ends.
pub proof fn lemma_parent_shorter(p: Seq<char>)
    ensures
        path_parent(p) matches Some(q) ==> q.len() < p.len(),
{
    let lo = lead_len(p);
    let b = body_end(p);
    lemma_trim_end_bounds(p, lo, p.len() as int);
    if b > lo {
        let k = comp_start(p, lo, b);
        lemma_comp_start_bounds(p, lo, b);
        let e = if k > lo {
            k - 1
        } else {
            lo
        };
        lemma_trim_end_bounds(p, lo, e);
    }
}

fn lead_len_exec(p: &Vec<char>) -> (r: usize)
    ensures
        r == lead_len(p@),
{
    if p.len() > 0 && p[0] == '/' {
        1
    } else if p.len() > 0 && p[0] == '.' && (p.len() == 1 || p[1] == '/') {
        1
    } else {
        0
    }
}

fn trim_end_exec(p: &Vec<char>, lo: usize, hi: usize) -> (r: usize)
    requires
        lo <= hi <= p.len(),
    ensures
        r == trim_end(p@, lo as int, hi as int),
        lo <= r <= hi,
{
    let mut h = hi;
    while h > lo
        invariant
            lo <= h <= hi <= p.len(),
            trim_end(p@, lo as int, h as int) == trim_end(p@, lo as int, hi as int),
        decreases h,
    {
        if p[h - 1] == '/' || (p[h - 1] == '.' && (h - 1 == lo || p[h - 2] == '/')) {
            h = h - 1;
        } else {
            return h;
        }
    }
    h
}

fn comp_start_exec(p: &Vec<char>, lo: usize, hi: usize) -> (r: usize)
    requires
        lo <= hi <= p.len(),
    ensures
        r == comp_start(p@, lo as int, hi as int),
        lo <= r <= hi,
{
    let mut h = hi;
    while h > lo
        invariant
            lo <= h <= hi <= p.len(),
            comp_start(p@, lo as int, h as int) == comp_start(p@, lo as int, hi as int),
        decreases h,
    {
        if p[h - 1] == '/' {
            return h;
        }
        h = h - 1;
    }
    h
}

/// `p[from..to]` as a new string.
fn slice_text(p: &str, from: usize, to: usize) -> (r: String)
    requires
        from <= to <= p@.len(),
    ensures
        r@ == p@.subrange(from as int, to as int),
{
    String::from_str(p.substring_char(from, to))
}

/// Whether `p` starts at the filesystem root.
pub fn path_has_root(p: &str) -> (r: bool)
    ensures
        r == has_root(p@),
{
    let v = chars_of(p);
    v.len() > 0 && v[0] == '/'
}

/// The parent directory of `p` (see [`path_parent`]).
pub fn parent_of(p: &str) -> (r: Option<String>)
    ensures
        opt_view(r) == path_parent(p@),
{
    let v = chars_of(p);
    let lo = lead_len_exec(&v);
    let b = trim_end_exec(&v, lo, v.len());
    if b > lo {
        let k = comp_start_exec(&v, lo, b);
        let e = if k > lo {
            k - 1
        } else {
            lo
        };
        let t = trim_end_exec(&v, lo, e);
        Some(slice_text(p, 0, t))
    } else if lo == 1 && v[0] == '.' {
        Some(String::new())
    } else {
        None
    }
}

/// The extension of `p` (see [`extension`]).
pub fn extension_of(p: &str) -> (r: Option<String>)
    ensures
        opt_view(r) == extension(p@),
{
    let v = chars_of(p);
    let lo = lead_len_exec(&v);
    let b = trim_end_exec(&v, lo, v.len());
    if b <= lo {
        return None;
    }
    let k = comp_start_exec(&v, lo, b);
    proof {
        lemma_comp_start_bounds(v@, lo as int, b as int);
    }
    if b - k == 2 && v[k] == '.' && v[k + 1] == '.' {
        assert(p@.subrange(k as int, b as int) =~= seq!['.', '.']);
        return None;
    }
    assert(p@.subrange(k as int, b as int) != seq!['.', '.']) by {
        if p@.subrange(k as int, b as int) == seq!['.', '.'] {
            assert(p@.subrange(k as int, b as int)[0] == v@[k as int]);
            assert(p@.subrange(k as int, b as int)[1] == v@[k + 1]);
        }
    }
    let ghost name = p@.subrange(k as int, b as int);
    let mut d = b;
    while d > k && v[d - 1] != '.'
        invariant
            k <= d <= b <= v.len(),
            v@ == p@,
            name == p@.subrange(k as int, b as int),
            last_dot(name, (d - k) as int) == last_dot(name, (b - k) as int),
        decreases d,
    {
        d = d - 1;
    }
    if d - k > 1 {
        assert(last_dot(name, (d - k) as int) == d - 1 - k);
        Some(slice_text(p, d, b))
    } else {
        proof {
            if d - k == 1 {
                assert(last_dot(name, (d - k) as int) == 0);
            } else {
                assert(last_dot(name, 0) == -1);
            }
        }
        None
    }
}

/// `base` joined with `seg` (see [`path_join`]).
pub fn join_path(base: &str, seg: &str) -> (r: String)
    ensures
        r@ == path_join(base@, seg@),
{
    if path_has_root(seg) {
        return String::from_str(seg);
    }
    let b = chars_of(base);
    let mut out = String::from_str(base);
    if b.len() > 0 && b[b.len() - 1] != '/' {
        out.append("/");
        proof {
            reveal_strlit("/");
        }
    }
    out.append(seg);
    out
}

} // verus!
