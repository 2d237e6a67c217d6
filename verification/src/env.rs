//! Environment-variable lists as the language server receives them, and the
//! edits made to them: setting a variable, and prepending a directory to a
//! separator-delimited search path without repeating it.

use vstd::prelude::*;
use vstd::string::{StrSliceExecFns, StringExecFns};
use crate::VyperExtension;
use crate::text::{chars_of, same_text};
use crate::venv::{lemma_contains_push, WorkspaceVenv};

verus! {

/// `env` without its entries for `key`.
pub open spec fn without_key(env: Seq<(Seq<char>, Seq<char>)>, key: Seq<char>) -> Seq<
    (Seq<char>, Seq<char>),
>
    decreases env.len(),
{
    if env.len() == 0 {
        Seq::empty()
    } else if env.last().0 == key {
        without_key(env.drop_last(), key)
    } else {
        without_key(env.drop_last(), key).push(env.last())
    }
}

/// `env` with `key` set to `value`: earlier entries for `key` are dropped and
/// the new entry comes last.
pub open spec fn with_var(env: Seq<(Seq<char>, Seq<char>)>, key: Seq<char>, value: Seq<char>) -> Seq<
    (Seq<char>, Seq<char>),
> {
    without_key(env, key).push((key, value))
}

/// The value of the last entry for `key`, if any.
pub open spec fn var_value(env: Seq<(Seq<char>, Seq<char>)>, key: Seq<char>) -> Option<Seq<char>>
    decreases env.len(),
{
    if env.len() == 0 {
        None
    } else if env.last().0 == key {
        Some(env.last().1)
    } else {
        var_value(env.drop_last(), key)
    }
}

/// The value of the last entry for `key`, or the empty text.
pub open spec fn current_value(env: Seq<(Seq<char>, Seq<char>)>, key: Seq<char>) -> Seq<char> {
    match var_value(env, key) {
        Some(v) => v,
        None => Seq::empty(),
    }
}

/// The pieces of `s[start..]` between occurrences of the non-empty `sep`,
/// scanning from `i`; occurrences are taken leftmost first, without overlap.
pub open spec fn split_scan(s: Seq<char>, sep: Seq<char>, start: int, i: int) -> Seq<Seq<char>>
    decreases s.len() - i,
{
    if sep.len() == 0 || i + sep.len() > s.len() {
        seq![s.subrange(start, s.len() as int)]
    } else if s.subrange(i, i + sep.len()) == sep {
        seq![s.subrange(start, i)] + split_scan(s, sep, i + sep.len(), i + sep.len())
    } else {
        split_scan(s, sep, start, i + 1)
    }
}

/// `s` split at every occurrence of `sep`, as `str::split` does it; the
/// empty separator splits between all characters and at both ends.
pub open spec fn split(s: Seq<char>, sep: Seq<char>) -> Seq<Seq<char>> {
    if sep.len() == 0 {
        seq![Seq::<char>::empty()] + s.map_values(|c: char| seq![c]) + seq![Seq::<char>::empty()]
    } else {
        split_scan(s, sep, 0, 0)
    }
}

/// The segments that stay behind a new first segment `prefix`: the
/// non-empty ones that differ from `prefix`, in order.
pub open spec fn kept_segments(segs: Seq<Seq<char>>, prefix: Seq<char>) -> Seq<Seq<char>>
    decreases segs.len(),
{
    if segs.len() == 0 {
        Seq::empty()
    } else if segs.last().len() > 0 && segs.last() != prefix {
        kept_segments(segs.drop_last(), prefix).push(segs.last())
    } else {
        kept_segments(segs.drop_last(), prefix)
    }
}

/// The segments joined with `sep` between each two.
pub open spec fn join_with(segs: Seq<Seq<char>>, sep: Seq<char>) -> Seq<char>
    decreases segs.len(),
{
    if segs.len() == 0 {
        Seq::empty()
    } else if segs.len() == 1 {
        segs[0]
    } else {
        join_with(segs.drop_last(), sep) + sep + segs.last()
    }
}

/// A search path with `prefix` put first and removed from further back.
pub open spec fn prepended(current: Seq<char>, prefix: Seq<char>, sep: Seq<char>) -> Seq<char> {
    join_with(seq![prefix] + kept_segments(split(current, sep), prefix), sep)
}

/// `env` after `prefix` is prepended to the search path held in `key`.
pub open spec fn env_after_prepend(
    env: Seq<(Seq<char>, Seq<char>)>,
    key: Seq<char>,
    prefix: Seq<char>,
    sep: Seq<char>,
) -> Seq<(Seq<char>, Seq<char>)> {
    with_var(env, key, prepended(current_value(env, key), prefix, sep))
}

/// `env` after each of `items`, last one first, is prepended to `key`; the
/// first of `items` ends up first in the search path.
pub open spec fn prepend_each(
    env: Seq<(Seq<char>, Seq<char>)>,
    key: Seq<char>,
    items: Seq<Seq<char>>,
    sep: Seq<char>,
) -> Seq<(Seq<char>, Seq<char>)>
    decreases items.len(),
{
    if items.len() == 0 {
        env
    } else {
        prepend_each(env_after_prepend(env, key, items.last(), sep), key, items.drop_last(), sep)
    }
}

/// `env` once the library directories of `venv` lead `PYTHONPATH` and its
/// executable directories lead `PATH`.
pub open spec fn env_with_venv(
    env: Seq<(Seq<char>, Seq<char>)>,
    venv: (Seq<Seq<char>>, Seq<Seq<char>>),
    sep: Seq<char>,
) -> Seq<(Seq<char>, Seq<char>)> {
    prepend_each(prepend_each(env, "PYTHONPATH"@, venv.1, sep), "PATH"@, venv.0, sep)
}

/// `env` with each of `overrides` set in turn.
pub open spec fn with_vars(
    env: Seq<(Seq<char>, Seq<char>)>,
    overrides: Seq<(Seq<char>, Seq<char>)>,
) -> Seq<(Seq<char>, Seq<char>)>
    decreases overrides.len(),
{
    if overrides.len() == 0 {
        env
    } else {
        with_var(with_vars(env, overrides.drop_last()), overrides.last().0, overrides.last().1)
    }
}

/// Whether `w` occurs in `v` at `i`.
fn occurs_at(v: &Vec<char>, w: &Vec<char>, i: usize) -> (r: bool)
    requires
        i + w.len() <= v.len(),
    ensures
        r == (v@.subrange(i as int, i + w.len()) == w@),
{
    let mut j: usize = 0;
    while j < w.len()
        invariant
            i + w.len() <= v.len(),
            j <= w.len(),
            forall|k: int| 0 <= k < j ==> v@[i + k] == w@[k],
        decreases w.len() - j,
    {
        if v[i + j] != w[j] {
            assert(v@.subrange(i as int, i + w.len())[j as int] != w@[j as int]);
            return false;
        }
        j = j + 1;
    }
    assert(v@.subrange(i as int, i + w.len()) =~= w@);
    true
}

/// `s` split at every occurrence of `sep` (see [`split`]).
pub fn split_text(s: &str, sep: &str) -> (r: Vec<String>)
    ensures
        r.deep_view() == split(s@, sep@),
{
    let v = chars_of(s);
    let w = chars_of(sep);
    let mut r: Vec<String> = Vec::new();
    if w.len() == 0 {
        r.push(String::new());
        let mut i: usize = 0;
        while i < v.len()
            invariant
                v@ == s@,
                i <= v.len(),
                r.deep_view() =~= seq![Seq::<char>::empty()] + s@.take(i as int).map_values(
                    |c: char| seq![c],
                ),
            decreases v.len() - i,
        {
            let ghost before = r.deep_view();
            r.push(String::from_str(s.substring_char(i, i + 1)));
            assert(s@.subrange(i as int, i + 1) =~= seq![s@[i as int]]);
            assert(s@.take(i + 1).map_values(|c: char| seq![c]) =~= s@.take(i as int).map_values(
                |c: char| seq![c],
            ).push(seq![s@[i as int]]));
            assert(r.deep_view() =~= before.push(seq![s@[i as int]]));
            i = i + 1;
        }
        let ghost before = r.deep_view();
        r.push(String::new());
        assert(r.deep_view() =~= before.push(Seq::empty()));
        assert(s@.take(v.len() as int) =~= s@);
        return r;
    }
    let mut start: usize = 0;
    let mut i: usize = 0;
    while w.len() <= v.len() - i
        invariant
            v@ == s@,
            w@ == sep@,
            w.len() > 0,
            start <= i <= v.len(),
            r.deep_view() + split_scan(s@, sep@, start as int, i as int) == split_scan(
                s@,
                sep@,
                0,
                0,
            ),
        decreases v.len() - i,
    {
        if occurs_at(&v, &w, i) {
            let ghost before = r.deep_view();
            r.push(String::from_str(s.substring_char(start, i)));
            assert(r.deep_view() =~= before.push(s@.subrange(start as int, i as int)));
            assert(before + split_scan(s@, sep@, start as int, i as int) =~= r.deep_view()
                + split_scan(s@, sep@, (i + w.len()) as int, (i + w.len()) as int));
            i = i + w.len();
            start = i;
        } else {
            i = i + 1;
        }
    }
    let ghost before = r.deep_view();
    r.push(String::from_str(s.substring_char(start, v.len())));
    assert(r.deep_view() =~= before + split_scan(s@, sep@, start as int, i as int));
    r
}

/// The segments joined with `sep` between each two (see [`join_with`]).
pub fn join_texts(segs: &Vec<String>, sep: &str) -> (r: String)
    ensures
        r@ == join_with(segs.deep_view(), sep@),
{
    let mut r = String::new();
    let mut i: usize = 0;
    while i < segs.len()
        invariant
            i <= segs.len(),
            r@ == join_with(segs.deep_view().take(i as int), sep@),
        decreases segs.len() - i,
    {
        let ghost before = segs.deep_view().take(i as int);
        assert(segs.deep_view().take(i + 1).drop_last() =~= before);
        if i > 0 {
            r.append(sep);
        }
        r.append(segs[i].as_str());
        proof {
            if i == 0 {
                assert(segs.deep_view().take(1) =~= seq![segs@[0]@]);
            }
        }
        i = i + 1;
    }
    assert(segs.deep_view().take(segs.len() as int) =~= segs.deep_view());
    r
}

impl VyperExtension {
    /// The value of the last entry for `key`, or the empty text.
    fn current_env_value(env: &Vec<(String, String)>, key: &str) -> (r: String)
        ensures
            r@ == current_value(env.deep_view(), key@),
    {
        let mut i = env.len();
        assert(env.deep_view().take(i as int) =~= env.deep_view());
        while i > 0
            invariant
                i <= env.len(),
                var_value(env.deep_view().take(i as int), key@) == var_value(env.deep_view(), key@),
            decreases i,
        {
            let ghost pre = env.deep_view().take(i as int);
            assert(pre.drop_last() =~= env.deep_view().take(i - 1));
            if same_text(env[i - 1].0.as_str(), key) {
                return env[i - 1].1.clone();
            }
            i = i - 1;
        }
        assert(env.deep_view().take(env.len() as int) =~= env.deep_view());
        String::new()
    }

    /// Sets `key` to `value`: existing entries for `key` are removed and the
    /// new entry is appended.
    pub fn set_env_var(env: &mut Vec<(String, String)>, key: &str, value: String)
        ensures
            final(env).deep_view() == with_var(old(env).deep_view(), key@, value@),
    {
        let mut kept: Vec<(String, String)> = Vec::new();
        let mut i: usize = 0;
        while i < env.len()
            invariant
                i <= env.len(),
                env.deep_view() == old(env).deep_view(),
                kept.deep_view() == without_key(env.deep_view().take(i as int), key@),
            decreases env.len() - i,
        {
            let ghost pre = env.deep_view().take(i + 1);
            assert(pre.drop_last() =~= env.deep_view().take(i as int));
            if !same_text(env[i].0.as_str(), key) {
                let ghost before = kept.deep_view();
                kept.push((env[i].0.clone(), env[i].1.clone()));
                assert(kept.deep_view() =~= before.push(env.deep_view()[i as int]));
            }
            i = i + 1;
        }
        assert(env.deep_view().take(env.len() as int) =~= env.deep_view());
        let ghost before = kept.deep_view();
        kept.push((String::from_str(key), value));
        assert(kept.deep_view() =~= before.push((key@, value@)));
        *env = kept;
    }

    /// Puts `prefix` first in the `separator`-delimited search path held in
    /// `key`, dropping empty segments and other copies of `prefix`.
    pub fn prepend_env_path(env: &mut Vec<(String, String)>, key: &str, prefix: &str, separator: &str)
        ensures
            final(env).deep_view() == env_after_prepend(old(env).deep_view(), key@, prefix@, separator@),
    {
        let current = Self::current_env_value(env, key);
        let segments = split_text(current.as_str(), separator);
        let mut kept: Vec<String> = Vec::new();
        kept.push(String::from_str(prefix));
        let mut i: usize = 0;
        while i < segments.len()
            invariant
                i <= segments.len(),
                kept.deep_view() == seq![prefix@] + kept_segments(segments.deep_view().take(i as int), prefix@),
            decreases segments.len() - i,
        {
            let ghost pre = segments.deep_view().take(i + 1);
            assert(pre.drop_last() =~= segments.deep_view().take(i as int));
            let segment = segments[i].as_str();
            if !segment.is_empty() && !same_text(segment, prefix) {
                let ghost before = kept.deep_view();
                kept.push(segments[i].clone());
                assert(kept.deep_view() =~= before.push(segments.deep_view()[i as int]));
            }
            i = i + 1;
        }
        assert(segments.deep_view().take(segments.len() as int) =~= segments.deep_view());
        let joined = join_texts(&kept, separator);
        Self::set_env_var(env, key, joined);
    }

    /// Prepends the library directories of `venv` to `PYTHONPATH` and its
    /// executable directories to `PATH`, each list keeping its order.
    pub fn apply_workspace_venv(venv: &WorkspaceVenv, env: &mut Vec<(String, String)>, separator: &str)
        ensures
            final(env).deep_view() == env_with_venv(old(env).deep_view(), venv@, separator@),
    {
        let ghost start = env.deep_view();
        let ghost sites = venv.site_packages.deep_view();
        let ghost bins = venv.bin_dirs.deep_view();
        let mut i = venv.site_packages.len();
        assert(sites.take(i as int) =~= sites);
        while i > 0
            invariant
                i <= venv.site_packages.len(),
                sites == venv.site_packages.deep_view(),
                prepend_each(env.deep_view(), "PYTHONPATH"@, sites.take(i as int), separator@)
                    == prepend_each(start, "PYTHONPATH"@, sites, separator@),
            decreases i,
        {
            assert(sites.take(i as int).drop_last() =~= sites.take(i - 1));
            Self::prepend_env_path(env, "PYTHONPATH", venv.site_packages[i - 1].as_str(), separator);
            i = i - 1;
        }
        assert(sites.take(0) =~= Seq::<Seq<char>>::empty());
        let ghost mid = prepend_each(start, "PYTHONPATH"@, sites, separator@);
        let mut j = venv.bin_dirs.len();
        assert(bins.take(j as int) =~= bins);
        while j > 0
            invariant
                j <= venv.bin_dirs.len(),
                bins == venv.bin_dirs.deep_view(),
                prepend_each(env.deep_view(), "PATH"@, bins.take(j as int), separator@)
                    == prepend_each(mid, "PATH"@, bins, separator@),
            decreases j,
        {
            assert(bins.take(j as int).drop_last() =~= bins.take(j - 1));
            Self::prepend_env_path(env, "PATH", venv.bin_dirs[j - 1].as_str(), separator);
            j = j - 1;
        }
        assert(bins.take(0) =~= Seq::<Seq<char>>::empty());
    }

    /// Sets each of `overrides` in turn, so that later entries win.
    pub fn apply_env_overrides(env: &mut Vec<(String, String)>, overrides: Vec<(String, String)>)
        ensures
            final(env).deep_view() == with_vars(old(env).deep_view(), overrides.deep_view()),
    {
        let ghost start = env.deep_view();
        let mut i: usize = 0;
        while i < overrides.len()
            invariant
                i <= overrides.len(),
                env.deep_view() == with_vars(start, overrides.deep_view().take(i as int)),
            decreases overrides.len() - i,
        {
            assert(overrides.deep_view().take(i + 1).drop_last() =~= overrides.deep_view().take(
                i as int,
            ));
            Self::set_env_var(env, overrides[i].0.as_str(), overrides[i].1.clone());
            i = i + 1;
        }
        assert(overrides.deep_view().take(overrides.len() as int) =~= overrides.deep_view());
    }
}


/// No character of `x` is `c`.
pub open spec fn free_of(x: Seq<char>, c: char) -> bool {
    forall|i: int| 0 <= i < x.len() ==> x[i] != c
}

proof fn lemma_without_key_drops_key(env: Seq<(Seq<char>, Seq<char>)>, key: Seq<char>)
    ensures
        forall|i: int| 0 <= i < without_key(env, key).len() ==> without_key(env, key)[i].0 != key,
        without_key(without_key(env, key), key) == without_key(env, key),
        var_value(without_key(env, key), key) is None,
    decreases env.len(),
{
    if env.len() > 0 {
        lemma_without_key_drops_key(env.drop_last(), key);
        let w = without_key(env.drop_last(), key);
        if env.last().0 != key {
            assert(w.push(env.last()).drop_last() =~= w);
        }
    }
}

proof fn lemma_without_key_keeps_others(
    env: Seq<(Seq<char>, Seq<char>)>,
    key: Seq<char>,
    other: Seq<char>,
)
    requires
        other != key,
    ensures
        var_value(without_key(env, key), other) == var_value(env, other),
    decreases env.len(),
{
    if env.len() > 0 {
        lemma_without_key_keeps_others(env.drop_last(), key, other);
        let w = without_key(env.drop_last(), key);
        if env.last().0 != key {
            assert(w.push(env.last()).drop_last() =~= w);
        }
    }
}

/// Setting a variable: its value reads back, every other variable keeps its
/// value, and exactly one entry for it is left, the last one.
pub proof fn lemma_set_var(
    env: Seq<(Seq<char>, Seq<char>)>,
    key: Seq<char>,
    value: Seq<char>,
    other: Seq<char>,
)
    ensures
        var_value(with_var(env, key, value), key) == Some(value),
        other != key ==> var_value(with_var(env, key, value), other) == var_value(env, other),
        with_var(env, key, value).last() == (key, value),
        forall|i: int|
            0 <= i < with_var(env, key, value).len() - 1 ==> with_var(env, key, value)[i].0 != key,
{
    lemma_without_key_drops_key(env, key);
    let w = without_key(env, key);
    assert(w.push((key, value)).drop_last() =~= w);
    if other != key {
        lemma_without_key_keeps_others(env, key, other);
    }
}

/// Overrides win: after the overrides are applied, a variable holds the
/// last override given for it, or its former value when none is given.
pub proof fn lemma_overrides_win(
    env: Seq<(Seq<char>, Seq<char>)>,
    overrides: Seq<(Seq<char>, Seq<char>)>,
    key: Seq<char>,
)
    ensures
        var_value(with_vars(env, overrides), key) == match var_value(overrides, key) {
            Some(v) => Some(v),
            None => var_value(env, key),
        },
    decreases overrides.len(),
{
    if overrides.len() > 0 {
        lemma_overrides_win(env, overrides.drop_last(), key);
        let last = overrides.last();
        lemma_set_var(with_vars(env, overrides.drop_last()), last.0, last.1, key);
    }
}

proof fn lemma_scan_skip(s: Seq<char>, c: char, start: int, i: int, j: int)
    requires
        0 <= start <= i <= j <= s.len(),
        forall|k: int| i <= k < j ==> s[k] != c,
    ensures
        split_scan(s, seq![c], start, i) == split_scan(s, seq![c], start, j),
    decreases j - i,
{
    if i < j {
        assert(s.subrange(i, i + 1)[0] == s[i]);
        assert(s.subrange(i, i + 1) != seq![c]);
        lemma_scan_skip(s, c, start, i + 1, j);
    }
}

proof fn lemma_scan_shift(s: Seq<char>, sep: Seq<char>, k: int, start: int, i: int)
    requires
        0 <= k <= start <= i <= s.len(),
    ensures
        split_scan(s, sep, start, i) == split_scan(
            s.subrange(k, s.len() as int),
            sep,
            start - k,
            i - k,
        ),
    decreases s.len() - i,
{
    let t = s.subrange(k, s.len() as int);
    if sep.len() == 0 || i + sep.len() > s.len() {
        assert(s.subrange(start, s.len() as int) =~= t.subrange(start - k, t.len() as int));
    } else {
        assert(s.subrange(i, i + sep.len()) =~= t.subrange(i - k, i - k + sep.len()));
        if s.subrange(i, i + sep.len()) == sep {
            assert(s.subrange(start, i) =~= t.subrange(start - k, i - k));
            lemma_scan_shift(s, sep, k, i + sep.len(), i + sep.len());
        } else {
            lemma_scan_shift(s, sep, k, start, i + 1);
        }
    }
}

proof fn lemma_scan_pieces_free(s: Seq<char>, c: char, start: int, i: int)
    requires
        0 <= start <= i <= s.len(),
        forall|k: int| start <= k < i ==> s[k] != c,
    ensures
        forall|j: int|
            0 <= j < split_scan(s, seq![c], start, i).len() ==> free_of(
                #[trigger] split_scan(s, seq![c], start, i)[j],
                c,
            ),
    decreases s.len() - i,
{
    let piece = s.subrange(start, i);
    assert forall|k: int| 0 <= k < piece.len() implies piece[k] != c by {
        assert(piece[k] == s[start + k]);
    }
    if i + 1 > s.len() {
        assert(s.subrange(start, s.len() as int) =~= piece);
        assert(split_scan(s, seq![c], start, i) =~= seq![piece]);
        assert(free_of(piece, c));
        assert(seq![piece][0] == piece);
    } else {
        assert(s.subrange(i, i + 1) =~= seq![s[i]]);
        if s[i] == c {
            lemma_scan_pieces_free(s, c, i + 1, i + 1);
            let rest = split_scan(s, seq![c], i + 1, i + 1);
            assert(split_scan(s, seq![c], start, i) == seq![piece] + rest);
            assert forall|j: int| 0 <= j < 1 + rest.len() implies free_of(
                #[trigger] (seq![piece] + rest)[j],
                c,
            ) by {
                if j > 0 {
                    assert((seq![piece] + rest)[j] == rest[j - 1]);
                }
            }
        } else {
            assert(seq![s[i]] != seq![c]) by {
                assert(seq![s[i]][0] != seq![c][0]);
            }
            lemma_scan_pieces_free(s, c, start, i + 1);
            assert(split_scan(s, seq![c], start, i) == split_scan(s, seq![c], start, i + 1));
        }
    }
}

/// The pieces of a split at a one-character separator never hold that character.
proof fn lemma_split_pieces_free(s: Seq<char>, c: char)
    ensures
        forall|j: int|
            0 <= j < split(s, seq![c]).len() ==> free_of(#[trigger] split(s, seq![c])[j], c),
{
    lemma_scan_pieces_free(s, c, 0, 0);
}

pub(crate) proof fn lemma_join_front(segs: Seq<Seq<char>>, sep: Seq<char>)
    requires
        segs.len() >= 2,
    ensures
        join_with(segs, sep) == segs[0] + sep + join_with(segs.drop_first(), sep),
    decreases segs.len(),
{
    let rest = segs.drop_first();
    if segs.len() == 2 {
        assert(segs.drop_last().len() == 1);
        assert(join_with(segs.drop_last(), sep) == segs[0]);
        assert(join_with(rest, sep) == rest[0]);
    } else {
        let init = segs.drop_last();
        lemma_join_front(init, sep);
        assert(rest.drop_last() =~= init.drop_first());
        assert(rest.last() == segs.last());
        assert(join_with(rest, sep) == join_with(init.drop_first(), sep) + sep + segs.last());
        assert(join_with(segs, sep) =~= segs[0] + sep + join_with(rest, sep));
    }
}

proof fn lemma_split_single(x: Seq<char>, c: char)
    requires
        free_of(x, c),
    ensures
        split_scan(x, seq![c], 0, 0) == seq![x],
{
    lemma_scan_skip(x, c, 0, 0, x.len() as int);
    assert(x.subrange(0, x.len() as int) =~= x);
}

proof fn lemma_split_cons(x: Seq<char>, r: Seq<char>, c: char)
    requires
        free_of(x, c),
    ensures
        split_scan(x + seq![c] + r, seq![c], 0, 0) == seq![x] + split_scan(r, seq![c], 0, 0),
{
    let t = x + seq![c] + r;
    let n = x.len() as int;
    assert forall|k: int| 0 <= k < n implies t[k] != c by {
        assert(t[k] == x[k]);
    }
    lemma_scan_skip(t, c, 0, 0, n);
    assert(t.subrange(n, n + 1) =~= seq![c]);
    assert(t.subrange(0, n) =~= x);
    assert(split_scan(t, seq![c], 0, n) == seq![x] + split_scan(t, seq![c], n + 1, n + 1));
    lemma_scan_shift(t, seq![c], n + 1, n + 1, n + 1);
    assert(t.subrange(n + 1, t.len() as int) =~= r);
}

/// Splitting undoes joining, for a one-character separator and segments
/// that do not hold it.
pub proof fn lemma_split_join(segs: Seq<Seq<char>>, c: char)
    requires
        segs.len() >= 1,
        forall|j: int| 0 <= j < segs.len() ==> free_of(#[trigger] segs[j], c),
    ensures
        split(join_with(segs, seq![c]), seq![c]) == segs,
    decreases segs.len(),
{
    let x = segs[0];
    if segs.len() == 1 {
        lemma_split_single(x, c);
        assert(seq![x] =~= segs);
    } else {
        let rest = segs.drop_first();
        lemma_join_front(segs, seq![c]);
        assert forall|j: int| 0 <= j < rest.len() implies free_of(#[trigger] rest[j], c) by {
            assert(rest[j] == segs[j + 1]);
        }
        lemma_split_join(rest, c);
        lemma_split_cons(x, join_with(rest, seq![c]), c);
        assert(seq![x] + rest =~= segs);
    }
}

proof fn lemma_kept_segments_shape(segs: Seq<Seq<char>>, prefix: Seq<char>, c: char)
    requires
        forall|j: int| 0 <= j < segs.len() ==> free_of(#[trigger] segs[j], c),
    ensures
        forall|j: int|
            0 <= j < kept_segments(segs, prefix).len() ==> {
                let x = #[trigger] kept_segments(segs, prefix)[j];
                &&& x.len() > 0
                &&& x != prefix
                &&& free_of(x, c)
            },
    decreases segs.len(),
{
    if segs.len() > 0 {
        let init = segs.drop_last();
        assert forall|j: int| 0 <= j < init.len() implies free_of(#[trigger] init[j], c) by {
            assert(init[j] == segs[j]);
        }
        lemma_kept_segments_shape(init, prefix, c);
        let k0 = kept_segments(init, prefix);
        let last = segs.last();
        assert(free_of(segs[segs.len() - 1], c));
        if last.len() > 0 && last != prefix {
            let k = k0.push(last);
            assert(kept_segments(segs, prefix) == k);
            assert forall|j: int| 0 <= j < k.len() implies {
                let x = #[trigger] k[j];
                &&& x.len() > 0
                &&& x != prefix
                &&& free_of(x, c)
            } by {
                if j < k0.len() {
                    assert(k[j] == k0[j]);
                }
            }
        }
    }
}

proof fn lemma_kept_segments_after_prefix(kept: Seq<Seq<char>>, prefix: Seq<char>)
    requires
        forall|j: int|
            0 <= j < kept.len() ==> (#[trigger] kept[j]).len() > 0 && kept[j] != prefix,
    ensures
        kept_segments(seq![prefix] + kept, prefix) == kept,
    decreases kept.len(),
{
    let whole = seq![prefix] + kept;
    if kept.len() == 0 {
        assert(whole =~= seq![prefix]);
        assert(whole.drop_last() =~= Seq::<Seq<char>>::empty());
        assert(kept_segments(whole, prefix) == kept_segments(whole.drop_last(), prefix));
        assert(kept =~= Seq::<Seq<char>>::empty());
    } else {
        let init = kept.drop_last();
        assert forall|j: int| 0 <= j < init.len() implies (#[trigger] init[j]).len() > 0
            && init[j] != prefix by {
            assert(init[j] == kept[j]);
        }
        lemma_kept_segments_after_prefix(init, prefix);
        assert(whole.drop_last() =~= seq![prefix] + init);
        assert(whole.last() == kept.last());
        assert(kept[kept.len() - 1] == kept.last());
        assert(kept_segments(whole, prefix) == kept_segments(seq![prefix] + init, prefix).push(
            kept.last(),
        ));
        assert(init.push(kept.last()) =~= kept);
    }
}

/// Prepending puts `prefix` first in the search path and removes every other
/// copy of it and every empty segment (for a one-character separator that
/// `prefix` does not hold).
pub proof fn lemma_prepend_deduplicates(
    env: Seq<(Seq<char>, Seq<char>)>,
    key: Seq<char>,
    prefix: Seq<char>,
    c: char,
)
    requires
        free_of(prefix, c),
    ensures
        ({
            let kept = kept_segments(split(current_value(env, key), seq![c]), prefix);
            &&& split(current_value(env_after_prepend(env, key, prefix, seq![c]), key), seq![c])
                == seq![prefix] + kept
            &&& forall|j: int|
                0 <= j < kept.len() ==> (#[trigger] kept[j]).len() > 0 && kept[j] != prefix
        }),
{
    let sep = seq![c];
    let segs = split(current_value(env, key), sep);
    let kept = kept_segments(segs, prefix);
    let value = prepended(current_value(env, key), prefix, sep);
    lemma_set_var(env, key, value, key);
    lemma_split_pieces_free(current_value(env, key), c);
    lemma_kept_segments_shape(segs, prefix, c);
    let all = seq![prefix] + kept;
    assert forall|j: int| 0 <= j < all.len() implies free_of(#[trigger] all[j], c) by {
        if j > 0 {
            assert(all[j] == kept[j - 1]);
        }
    }
    lemma_split_join(all, c);
}

/// Prepending the same directory twice changes nothing more than prepending
/// it once (for a one-character separator that the directory does not hold).
pub proof fn lemma_prepend_idempotent(
    env: Seq<(Seq<char>, Seq<char>)>,
    key: Seq<char>,
    prefix: Seq<char>,
    c: char,
)
    requires
        free_of(prefix, c),
    ensures
        env_after_prepend(env_after_prepend(env, key, prefix, seq![c]), key, prefix, seq![c])
            == env_after_prepend(env, key, prefix, seq![c]),
{
    let sep = seq![c];
    let once = env_after_prepend(env, key, prefix, sep);
    let kept = kept_segments(split(current_value(env, key), sep), prefix);
    let value = prepended(current_value(env, key), prefix, sep);
    lemma_prepend_deduplicates(env, key, prefix, c);
    lemma_set_var(env, key, value, key);
    assert(current_value(once, key) == value);
    lemma_kept_segments_after_prefix(kept, prefix);
    assert(prepended(value, prefix, sep) == value);
    lemma_without_key_drops_key(env, key);
    let w = without_key(env, key);
    assert(w.push((key, value)).drop_last() =~= w);
    assert(without_key(once, key) == without_key(w, key));
}

/// The segments that stay behind the new leading `items`: the non-empty
/// ones that are not among `items`, in order.
pub open spec fn kept_outside(segs: Seq<Seq<char>>, items: Seq<Seq<char>>) -> Seq<Seq<char>>
    decreases segs.len(),
{
    if segs.len() == 0 {
        Seq::empty()
    } else if segs.last().len() > 0 && !items.contains(segs.last()) {
        kept_outside(segs.drop_last(), items).push(segs.last())
    } else {
        kept_outside(segs.drop_last(), items)
    }
}

proof fn lemma_outside_after_kept(segs: Seq<Seq<char>>, p: Seq<char>, items: Seq<Seq<char>>)
    ensures
        kept_outside(kept_segments(segs, p), items) == kept_outside(segs, items.push(p)),
    decreases segs.len(),
{
    if segs.len() > 0 {
        let init = segs.drop_last();
        let x = segs.last();
        lemma_outside_after_kept(init, p, items);
        lemma_contains_push(items, p, x);
        if x.len() > 0 && x != p {
            let k = kept_segments(init, p);
            assert(k.push(x).drop_last() =~= k);
        }
    }
}

proof fn lemma_outside_cons(x: Seq<char>, kept: Seq<Seq<char>>, items: Seq<Seq<char>>)
    requires
        x.len() > 0,
        !items.contains(x),
    ensures
        kept_outside(seq![x] + kept, items) == seq![x] + kept_outside(kept, items),
    decreases kept.len(),
{
    let whole = seq![x] + kept;
    if kept.len() == 0 {
        assert(whole =~= seq![x]);
        assert(whole.drop_last() =~= Seq::<Seq<char>>::empty());
        assert(whole.last() == x);
        assert(kept_outside(Seq::<Seq<char>>::empty(), items) == Seq::<Seq<char>>::empty());
        assert(kept_outside(whole, items) == Seq::<Seq<char>>::empty().push(x));
        assert(Seq::<Seq<char>>::empty().push(x) =~= seq![x] + kept_outside(kept, items));
    } else {
        let init = kept.drop_last();
        lemma_outside_cons(x, init, items);
        assert(whole.drop_last() =~= seq![x] + init);
        assert(whole.last() == kept.last());
        if kept.last().len() > 0 && !items.contains(kept.last()) {
            assert(kept_outside(whole, items) =~= seq![x] + kept_outside(kept, items));
        } else {
            assert(kept_outside(whole, items) =~= seq![x] + kept_outside(kept, items));
        }
    }
}

pub(crate) proof fn lemma_prepend_keeps_others(
    env: Seq<(Seq<char>, Seq<char>)>,
    key: Seq<char>,
    items: Seq<Seq<char>>,
    sep: Seq<char>,
    other: Seq<char>,
)
    requires
        other != key,
    ensures
        var_value(prepend_each(env, key, items, sep), other) == var_value(env, other),
    decreases items.len(),
{
    if items.len() > 0 {
        let next = env_after_prepend(env, key, items.last(), sep);
        lemma_set_var(env, key, prepended(current_value(env, key), items.last(), sep), other);
        lemma_prepend_keeps_others(next, key, items.drop_last(), sep, other);
    }
}

/// Prepending several directories, last one first, leaves them leading the
/// search path in their own order, followed by the former non-empty
/// segments that are not among them; no other variable changes. (For a
/// one-character separator that none of the distinct, non-empty directories
/// holds.)
pub proof fn lemma_prepend_each_leads(
    env: Seq<(Seq<char>, Seq<char>)>,
    key: Seq<char>,
    items: Seq<Seq<char>>,
    c: char,
    other: Seq<char>,
)
    requires
        items.len() >= 1,
        items.no_duplicates(),
        forall|j: int| 0 <= j < items.len() ==> (#[trigger] items[j]).len() > 0 && free_of(items[j], c),
    ensures
        split(current_value(prepend_each(env, key, items, seq![c]), key), seq![c]) == items
            + kept_outside(split(current_value(env, key), seq![c]), items),
        other != key ==> var_value(prepend_each(env, key, items, seq![c]), other) == var_value(
            env,
            other,
        ),
    decreases items.len(),
{
    let sep = seq![c];
    let init = items.drop_last();
    let last = items.last();
    let old_segs = split(current_value(env, key), sep);
    let next = env_after_prepend(env, key, last, sep);
    assert(free_of(items[items.len() - 1], c));
    lemma_prepend_deduplicates(env, key, last, c);
    let kept = kept_segments(old_segs, last);
    assert(split(current_value(next, key), sep) == seq![last] + kept);
    lemma_outside_after_kept(old_segs, last, init);
    assert(init.push(last) =~= items);
    if other != key {
        lemma_prepend_keeps_others(env, key, items, sep, other);
    }
    if init.len() == 0 {
        assert(prepend_each(env, key, items, sep) == prepend_each(next, key, init, sep));
        assert(prepend_each(next, key, init, sep) == next);
        lemma_outside_after_kept(old_segs, last, Seq::empty());
        assert(Seq::<Seq<char>>::empty().push(last) =~= items);
        assert(kept_outside(kept, Seq::<Seq<char>>::empty()) =~= kept) by {
            lemma_outside_none(kept);
            lemma_kept_segments_nonempty(old_segs, last);
        }
        assert(seq![last] + kept =~= items + kept);
    } else {
        assert(init.no_duplicates());
        assert forall|j: int| 0 <= j < init.len() implies (#[trigger] init[j]).len() > 0
            && free_of(init[j], c) by {
            assert(init[j] == items[j]);
        }
        lemma_prepend_each_leads(next, key, init, c, other);
        assert(!init.contains(last)) by {
            if init.contains(last) {
                let k = choose|k: int| 0 <= k < init.len() && init[k] == last;
                assert(items[k] == items[items.len() - 1]);
            }
        }
        assert(items[items.len() - 1].len() > 0);
        lemma_outside_cons(last, kept, init);
        assert(init + (seq![last] + kept_outside(kept, init)) =~= items + kept_outside(
            old_segs,
            items,
        ));
    }
}

proof fn lemma_outside_none(segs: Seq<Seq<char>>)
    requires
        forall|j: int| 0 <= j < segs.len() ==> (#[trigger] segs[j]).len() > 0,
    ensures
        kept_outside(segs, Seq::empty()) == segs,
    decreases segs.len(),
{
    if segs.len() > 0 {
        let init = segs.drop_last();
        assert forall|j: int| 0 <= j < init.len() implies (#[trigger] init[j]).len() > 0 by {
            assert(init[j] == segs[j]);
        }
        lemma_outside_none(init);
        assert(segs[segs.len() - 1].len() > 0);
        assert(init.push(segs.last()) =~= segs);
    }
}

proof fn lemma_kept_segments_nonempty(segs: Seq<Seq<char>>, prefix: Seq<char>)
    ensures
        forall|j: int|
            0 <= j < kept_segments(segs, prefix).len() ==> (#[trigger] kept_segments(
                segs,
                prefix,
            )[j]).len() > 0,
    decreases segs.len(),
{
    if segs.len() > 0 {
        let init = segs.drop_last();
        lemma_kept_segments_nonempty(init, prefix);
        let k0 = kept_segments(init, prefix);
        if segs.last().len() > 0 && segs.last() != prefix {
            let k = k0.push(segs.last());
            assert forall|j: int| 0 <= j < k.len() implies (#[trigger] k[j]).len() > 0 by {
                if j < k0.len() {
                    assert(k[j] == k0[j]);
                }
            }
        }
    }
}

/// After a workspace's virtual environments are applied, its executable
/// directories lead `PATH` and its library directories lead `PYTHONPATH`,
/// each in their own order and followed by the former segments not among
/// them; every other variable keeps its value. (For a one-character
/// separator that none of the distinct, non-empty directories holds.)
pub proof fn lemma_venv_leads_search_paths(
    env: Seq<(Seq<char>, Seq<char>)>,
    venv: (Seq<Seq<char>>, Seq<Seq<char>>),
    c: char,
    other: Seq<char>,
)
    requires
        venv.0.len() >= 1,
        venv.1.len() >= 1,
        venv.0.no_duplicates(),
        venv.1.no_duplicates(),
        forall|j: int| 0 <= j < venv.0.len() ==> (#[trigger] venv.0[j]).len() > 0 && free_of(venv.0[j], c),
        forall|j: int| 0 <= j < venv.1.len() ==> (#[trigger] venv.1[j]).len() > 0 && free_of(venv.1[j], c),
    ensures
        split(current_value(env_with_venv(env, venv, seq![c]), "PATH"@), seq![c]) == venv.0
            + kept_outside(split(current_value(env, "PATH"@), seq![c]), venv.0),
        split(current_value(env_with_venv(env, venv, seq![c]), "PYTHONPATH"@), seq![c]) == venv.1
            + kept_outside(split(current_value(env, "PYTHONPATH"@), seq![c]), venv.1),
        other != "PATH"@ && other != "PYTHONPATH"@ ==> var_value(env_with_venv(env, venv, seq![c]), other)
            == var_value(env, other),
{
    reveal_strlit("PATH");
    reveal_strlit("PYTHONPATH");
    assert("PATH"@ != "PYTHONPATH"@) by {
        assert("PATH"@.len() != "PYTHONPATH"@.len());
    }
    let mid = prepend_each(env, "PYTHONPATH"@, venv.1, seq![c]);
    lemma_prepend_each_leads(env, "PYTHONPATH"@, venv.1, c, "PATH"@);
    lemma_prepend_each_leads(mid, "PATH"@, venv.0, c, "PYTHONPATH"@);
    if other != "PATH"@ && other != "PYTHONPATH"@ {
        lemma_prepend_each_leads(env, "PYTHONPATH"@, venv.1, c, other);
        lemma_prepend_each_leads(mid, "PATH"@, venv.0, c, other);
    }
}

/// The search path `value` after each of `items`, last one first, is
/// prepended to it.
pub open spec fn prepended_all(value: Seq<char>, items: Seq<Seq<char>>, sep: Seq<char>) -> Seq<char>
    decreases items.len(),
{
    if items.len() == 0 {
        value
    } else {
        prepended_all(prepended(value, items.last(), sep), items.drop_last(), sep)
    }
}

proof fn lemma_with_var_twice(
    env: Seq<(Seq<char>, Seq<char>)>,
    key: Seq<char>,
    first: Seq<char>,
    second: Seq<char>,
)
    ensures
        with_var(with_var(env, key, first), key, second) == with_var(env, key, second),
{
    lemma_without_key_drops_key(env, key);
    let w = without_key(env, key);
    assert(w.push((key, first)).drop_last() =~= w);
}

proof fn lemma_without_key_push(
    env: Seq<(Seq<char>, Seq<char>)>,
    entry: (Seq<char>, Seq<char>),
    key: Seq<char>,
)
    ensures
        without_key(env.push(entry), key) == if entry.0 == key {
            without_key(env, key)
        } else {
            without_key(env, key).push(entry)
        },
{
    assert(env.push(entry).drop_last() =~= env);
}

proof fn lemma_without_keys_commute(env: Seq<(Seq<char>, Seq<char>)>, a: Seq<char>, b: Seq<char>)
    ensures
        without_key(without_key(env, a), b) == without_key(without_key(env, b), a),
    decreases env.len(),
{
    if env.len() > 0 {
        let init = env.drop_last();
        let e = env.last();
        lemma_without_keys_commute(init, a, b);
        lemma_without_key_push(without_key(init, a), e, b);
        lemma_without_key_push(without_key(init, b), e, a);
    }
}

/// Setting two different variables again to the values they already got
/// changes nothing.
proof fn lemma_two_vars_again(
    env: Seq<(Seq<char>, Seq<char>)>,
    k1: Seq<char>,
    v1: Seq<char>,
    k2: Seq<char>,
    v2: Seq<char>,
)
    requires
        k1 != k2,
    ensures
        with_var(with_var(with_var(with_var(env, k1, v1), k2, v2), k1, v1), k2, v2) == with_var(
            with_var(env, k1, v1),
            k2,
            v2,
        ),
{
    let w1 = without_key(env, k1);
    let z = without_key(w1, k2);
    lemma_without_key_drops_key(env, k1);
    lemma_without_key_drops_key(w1, k2);
    lemma_without_key_drops_key(without_key(env, k2), k1);
    lemma_without_keys_commute(env, k1, k2);
    lemma_without_keys_commute(w1, k1, k2);
    lemma_without_key_push(w1, (k1, v1), k2);
    let y = w1.push((k1, v1)).push((k2, v2));
    assert(with_var(with_var(env, k1, v1), k2, v2) == z.push((k1, v1)).push((k2, v2)));
    lemma_without_key_push(z.push((k1, v1)), (k2, v2), k1);
    lemma_without_key_push(z, (k1, v1), k1);
    lemma_without_key_drops_key(w1, k1);
    assert(without_key(z, k1) == z);
    let u = z.push((k2, v2)).push((k1, v1));
    assert(with_var(with_var(with_var(env, k1, v1), k2, v2), k1, v1) == u);
    lemma_without_key_push(z.push((k2, v2)), (k1, v1), k2);
    lemma_without_key_push(z, (k2, v2), k2);
    lemma_without_key_drops_key(w1, k2);
}

pub(crate) proof fn lemma_prepend_each_shape(
    env: Seq<(Seq<char>, Seq<char>)>,
    key: Seq<char>,
    items: Seq<Seq<char>>,
    sep: Seq<char>,
)
    requires
        items.len() >= 1,
    ensures
        prepend_each(env, key, items, sep) == with_var(
            env,
            key,
            prepended_all(current_value(env, key), items, sep),
        ),
    decreases items.len(),
{
    let last = items.last();
    let v1 = prepended(current_value(env, key), last, sep);
    let next = env_after_prepend(env, key, last, sep);
    assert(prepend_each(env, key, items, sep) == prepend_each(next, key, items.drop_last(), sep));
    assert(prepended_all(current_value(env, key), items, sep) == prepended_all(
        v1,
        items.drop_last(),
        sep,
    ));
    if items.len() == 1 {
        assert(items.drop_last().len() == 0);
        assert(prepend_each(next, key, items.drop_last(), sep) == next);
        assert(prepended_all(v1, items.drop_last(), sep) == v1);
    } else {
        lemma_prepend_each_shape(next, key, items.drop_last(), sep);
        lemma_set_var(env, key, v1, key);
        lemma_with_var_twice(env, key, v1, prepended_all(v1, items.drop_last(), sep));
    }
}

pub(crate) proof fn lemma_prepended_all_ends_with_first(value: Seq<char>, items: Seq<Seq<char>>, sep: Seq<char>)
    requires
        items.len() >= 1,
    ensures
        exists|before: Seq<char>| prepended_all(value, items, sep) == prepended(before, items[0], sep),
    decreases items.len(),
{
    let next = prepended(value, items.last(), sep);
    assert(prepended_all(value, items, sep) == prepended_all(next, items.drop_last(), sep));
    if items.len() == 1 {
        assert(items.drop_last().len() == 0);
        assert(prepended_all(next, items.drop_last(), sep) == next);
        assert(items.last() == items[0]);
    } else {
        lemma_prepended_all_ends_with_first(next, items.drop_last(), sep);
        assert(items.drop_last()[0] == items[0]);
    }
}

proof fn lemma_prepended_is_joined(before: Seq<char>, prefix: Seq<char>, c: char)
    requires
        free_of(prefix, c),
    ensures
        join_with(split(prepended(before, prefix, seq![c]), seq![c]), seq![c]) == prepended(
            before,
            prefix,
            seq![c],
        ),
{
    let segs = split(before, seq![c]);
    lemma_split_pieces_free(before, c);
    lemma_kept_segments_shape(segs, prefix, c);
    let all = seq![prefix] + kept_segments(segs, prefix);
    assert forall|j: int| 0 <= j < all.len() implies free_of(#[trigger] all[j], c) by {
        if j > 0 {
            assert(all[j] == kept_segments(segs, prefix)[j - 1]);
        }
    }
    lemma_split_join(all, c);
}

proof fn lemma_outside_shape(segs: Seq<Seq<char>>, items: Seq<Seq<char>>)
    ensures
        forall|j: int|
            0 <= j < kept_outside(segs, items).len() ==> (#[trigger] kept_outside(segs, items)[j]).len()
                > 0 && !items.contains(kept_outside(segs, items)[j]),
    decreases segs.len(),
{
    if segs.len() > 0 {
        let init = segs.drop_last();
        lemma_outside_shape(init, items);
        let k0 = kept_outside(init, items);
        if segs.last().len() > 0 && !items.contains(segs.last()) {
            let k = k0.push(segs.last());
            assert forall|j: int| 0 <= j < k.len() implies (#[trigger] k[j]).len() > 0
                && !items.contains(k[j]) by {
                if j < k0.len() {
                    assert(k[j] == k0[j]);
                }
            }
        }
    }
}

proof fn lemma_outside_of_items(items: Seq<Seq<char>>, lead: Seq<Seq<char>>, kept: Seq<Seq<char>>)
    requires
        forall|j: int| 0 <= j < lead.len() ==> items.contains(#[trigger] lead[j]),
        forall|j: int|
            0 <= j < kept.len() ==> (#[trigger] kept[j]).len() > 0 && !items.contains(kept[j]),
    ensures
        kept_outside(lead + kept, items) == kept,
    decreases lead.len() + kept.len(),
{
    let whole = lead + kept;
    if kept.len() > 0 {
        let init = kept.drop_last();
        assert forall|j: int| 0 <= j < init.len() implies (#[trigger] init[j]).len() > 0
            && !items.contains(init[j]) by {
            assert(init[j] == kept[j]);
        }
        lemma_outside_of_items(items, lead, init);
        assert(whole.drop_last() =~= lead + init);
        assert(whole.last() == kept[kept.len() - 1]);
        assert(init.push(kept.last()) =~= kept);
    } else if lead.len() > 0 {
        let init = lead.drop_last();
        assert forall|j: int| 0 <= j < init.len() implies items.contains(#[trigger] init[j]) by {
            assert(init[j] == lead[j]);
        }
        lemma_outside_of_items(items, init, kept);
        assert(whole =~= lead);
        assert(whole.drop_last() =~= init + kept);
        assert(whole.last() == lead[lead.len() - 1]);
    } else {
        assert(whole =~= Seq::<Seq<char>>::empty());
    }
}

/// Prepending the same directories twice gives the search path that
/// prepending them once gave. (For a one-character separator that none of
/// the distinct, non-empty directories holds.)
pub proof fn lemma_prepended_all_idempotent(value: Seq<char>, items: Seq<Seq<char>>, c: char)
    requires
        items.no_duplicates(),
        forall|j: int| 0 <= j < items.len() ==> (#[trigger] items[j]).len() > 0 && free_of(items[j], c),
    ensures
        prepended_all(prepended_all(value, items, seq![c]), items, seq![c]) == prepended_all(
            value,
            items,
            seq![c],
        ),
{
    let sep = seq![c];
    if items.len() > 0 {
        let key = Seq::<char>::empty();
        let once = prepended_all(value, items, sep);
        let twice = prepended_all(once, items, sep);
        let env1 = seq![(key, value)];
        let env2 = seq![(key, once)];
        assert(current_value(env1, key) == value);
        assert(current_value(env2, key) == once);
        lemma_prepend_each_shape(env1, key, items, sep);
        lemma_prepend_each_shape(env2, key, items, sep);
        lemma_set_var(env1, key, once, key);
        lemma_set_var(env2, key, twice, key);
        lemma_prepend_each_leads(env1, key, items, c, key);
        lemma_prepend_each_leads(env2, key, items, c, key);
        let kept = kept_outside(split(value, sep), items);
        lemma_outside_shape(split(value, sep), items);
        assert forall|j: int| 0 <= j < items.len() implies items.contains(#[trigger] items[j]) by {
        }
        lemma_outside_of_items(items, items, kept);
        assert(split(twice, sep) == split(once, sep));
        lemma_prepended_all_ends_with_first(value, items, sep);
        lemma_prepended_all_ends_with_first(once, items, sep);
        let b1 = choose|before: Seq<char>| once == prepended(before, items[0], sep);
        let b2 = choose|before: Seq<char>| twice == prepended(before, items[0], sep);
        lemma_prepended_is_joined(b1, items[0], c);
        lemma_prepended_is_joined(b2, items[0], c);
    }
}

/// Applying the same virtual environments twice gives the environment that
/// applying them once gave. (For a one-character separator that none of the
/// directories holds; each list distinct and its directories non-empty.)
pub proof fn lemma_venv_idempotent(
    env: Seq<(Seq<char>, Seq<char>)>,
    venv: (Seq<Seq<char>>, Seq<Seq<char>>),
    c: char,
)
    requires
        venv.0.no_duplicates(),
        venv.1.no_duplicates(),
        forall|j: int| 0 <= j < venv.0.len() ==> (#[trigger] venv.0[j]).len() > 0 && free_of(venv.0[j], c),
        forall|j: int| 0 <= j < venv.1.len() ==> (#[trigger] venv.1[j]).len() > 0 && free_of(venv.1[j], c),
    ensures
        env_with_venv(env_with_venv(env, venv, seq![c]), venv, seq![c]) == env_with_venv(
            env,
            venv,
            seq![c],
        ),
{
    let sep = seq![c];
    let py = "PYTHONPATH"@;
    let path = "PATH"@;
    reveal_strlit("PATH");
    reveal_strlit("PYTHONPATH");
    assert(path != py) by {
        assert(path.len() != py.len());
    }
    let f = prepend_each(env, py, venv.1, sep);
    let once = prepend_each(f, path, venv.0, sep);
    let f2 = prepend_each(once, py, venv.1, sep);
    let twice = prepend_each(f2, path, venv.0, sep);
    assert(env_with_venv(once, venv, sep) == twice);
    if venv.1.len() > 0 {
        let a = prepended_all(current_value(env, py), venv.1, sep);
        lemma_prepend_each_shape(env, py, venv.1, sep);
        lemma_set_var(env, py, a, path);
        lemma_set_var(env, py, a, py);
        lemma_prepended_all_idempotent(current_value(env, py), venv.1, c);
        if venv.0.len() > 0 {
            let b = prepended_all(current_value(f, path), venv.0, sep);
            lemma_prepend_each_shape(f, path, venv.0, sep);
            lemma_set_var(f, path, b, py);
            lemma_set_var(f, path, b, path);
            assert(current_value(once, py) == a);
            lemma_prepend_each_shape(once, py, venv.1, sep);
            assert(f2 == with_var(once, py, a));
            lemma_set_var(once, py, a, path);
            assert(current_value(f2, path) == b);
            lemma_prepended_all_idempotent(current_value(f, path), venv.0, c);
            lemma_prepend_each_shape(f2, path, venv.0, sep);
            assert(twice == with_var(f2, path, b));
            lemma_two_vars_again(env, py, a, path, b);
        } else {
            assert(once == f);
            lemma_prepend_each_shape(once, py, venv.1, sep);
            assert(f2 == with_var(f, py, a));
            lemma_with_var_twice(env, py, a, a);
            assert(twice == f2);
        }
    } else {
        assert(f == env);
        assert(f2 == once);
        if venv.0.len() > 0 {
            let b = prepended_all(current_value(env, path), venv.0, sep);
            lemma_prepend_each_shape(env, path, venv.0, sep);
            lemma_set_var(env, path, b, path);
            lemma_prepended_all_idempotent(current_value(env, path), venv.0, c);
            lemma_prepend_each_shape(once, path, venv.0, sep);
            lemma_with_var_twice(env, path, b, b);
        }
    }
}

/// `s` begins with `p`.
pub open spec fn starts_with(s: Seq<char>, p: Seq<char>) -> bool {
    p.len() <= s.len() && s.subrange(0, p.len() as int) == p
}

proof fn lemma_prepended_starts_with(before: Seq<char>, prefix: Seq<char>, sep: Seq<char>)
    ensures
        starts_with(prepended(before, prefix, sep), prefix),
{
    let kept = kept_segments(split(before, sep), prefix);
    let all = seq![prefix] + kept;
    let v = join_with(all, sep);
    if kept.len() == 0 {
        assert(all.len() == 1);
        assert(v == all[0]);
        assert(v.subrange(0, prefix.len() as int) =~= prefix);
    } else {
        lemma_join_front(all, sep);
        assert(all.drop_first() =~= kept);
        assert(v.subrange(0, prefix.len() as int) =~= prefix);
    }
}

/// After several directories are prepended to `key`, its search path begins
/// with the first of them.
pub proof fn lemma_prepend_each_starts_with_first(
    env: Seq<(Seq<char>, Seq<char>)>,
    key: Seq<char>,
    items: Seq<Seq<char>>,
    sep: Seq<char>,
)
    requires
        items.len() > 0,
    ensures
        starts_with(current_value(prepend_each(env, key, items, sep), key), items[0]),
{
    let v = prepended_all(current_value(env, key), items, sep);
    lemma_prepend_each_shape(env, key, items, sep);
    lemma_set_var(env, key, v, key);
    lemma_prepended_all_ends_with_first(current_value(env, key), items, sep);
    let before = choose|before: Seq<char>| v == prepended(before, items[0], sep);
    lemma_prepended_starts_with(before, items[0], sep);
}

/// After a virtual environment with executable and library directories is
/// applied, `PATH` begins with its first executable directory and
/// `PYTHONPATH` with its first library directory, whatever the separator.
pub proof fn lemma_venv_leads_each_path(
    env: Seq<(Seq<char>, Seq<char>)>,
    venv: (Seq<Seq<char>>, Seq<Seq<char>>),
    sep: Seq<char>,
)
    requires
        venv.0.len() > 0,
        venv.1.len() > 0,
    ensures
        starts_with(current_value(env_with_venv(env, venv, sep), "PATH"@), venv.0[0]),
        starts_with(current_value(env_with_venv(env, venv, sep), "PYTHONPATH"@), venv.1[0]),
{
    reveal_strlit("PATH");
    reveal_strlit("PYTHONPATH");
    assert("PATH"@ != "PYTHONPATH"@) by {
        assert("PATH"@.len() != "PYTHONPATH"@.len());
    }
    let mid = prepend_each(env, "PYTHONPATH"@, venv.1, sep);
    lemma_prepend_each_starts_with_first(env, "PYTHONPATH"@, venv.1, sep);
    lemma_prepend_each_starts_with_first(mid, "PATH"@, venv.0, sep);
    lemma_prepend_keeps_others(mid, "PATH"@, venv.0, sep, "PYTHONPATH"@);
}

} // verus!
