//! Path handling: separator-aware splitting, joining, prefix stripping and
//! extension recognition.
//!
//! Paths may use either separator; a backslash is treated exactly like a
//! forward slash, which canonicalizes paths without building intermediate
//! strings.

use vstd::prelude::*;

verus! {

/// Whether `c` is a path separator.
pub open spec fn is_sep(c: char) -> bool {
    c == '/' || c == '\\'
}

/// Whether `s` holds no separator, so that it can stand as one path segment.
pub open spec fn sep_free(s: Seq<char>) -> bool {
    forall|i: int| 0 <= i < s.len() ==> !is_sep(#[trigger] s[i])
}

/// The segments of `s`, split on separators. Splitting the empty string
/// gives one empty segment, as `str::split` does.
pub open spec fn spec_split(s: Seq<char>) -> Seq<Seq<char>>
    decreases s.len(),
{
    if s.len() == 0 {
        seq![Seq::empty()]
    } else if is_sep(s.last()) {
        spec_split(s.drop_last()).push(Seq::empty())
    } else {
        let r = spec_split(s.drop_last());
        r.update(r.len() - 1, r.last().push(s.last()))
    }
}

/// The segment views of a vector of strings.
pub open spec fn views_of(v: Seq<String>) -> Seq<Seq<char>> {
    v.map_values(|x: String| x@)
}

/// Splitting yields at least one segment, and every segment is free of
/// separators.
pub proof fn lemma_split_shape(s: Seq<char>)
    ensures
        spec_split(s).len() >= 1,
        forall|k: int| 0 <= k < spec_split(s).len() ==> sep_free(#[trigger] spec_split(s)[k]),
    decreases s.len(),
{
    if s.len() == 0 {
        assert(sep_free(Seq::<char>::empty()));
    } else {
        lemma_split_shape(s.drop_last());
        if is_sep(s.last()) {
            assert(sep_free(Seq::<char>::empty()));
        } else {
            let r = spec_split(s.drop_last());
            assert(sep_free(r.last().push(s.last())));
        }
    }
}

/// No segment of a split is longer than the string it was split from.
pub proof fn lemma_split_seg_len(s: Seq<char>)
    ensures
        forall|k: int|
            0 <= k < spec_split(s).len() ==> (#[trigger] spec_split(s)[k]).len() <= s.len(),
    decreases s.len(),
{
    if s.len() > 0 {
        lemma_split_seg_len(s.drop_last());
        let r = spec_split(s.drop_last());
        lemma_split_shape(s.drop_last());
        if is_sep(s.last()) {
            assert(forall|k: int|
                0 <= k < r.len() ==> spec_split(s)[k] == #[trigger] r[k]);
        } else {
            assert(forall|k: int|
                0 <= k < r.len() - 1 ==> spec_split(s)[k] == #[trigger] r[k]);
            assert(spec_split(s)[r.len() - 1] == r.last().push(s.last()));
        }
    }
}

/// One segment joined after a path with a separator in between.
pub open spec fn spec_join(ss: Seq<Seq<char>>) -> Seq<char>
    decreases ss.len(),
{
    if ss.len() == 0 {
        Seq::empty()
    } else if ss.len() == 1 {
        ss[0]
    } else {
        spec_join(ss.drop_last()) + seq!['/'] + ss.last()
    }
}

/// Splitting is unchanged by appending separator-free characters to the last
/// segment.
proof fn lemma_split_append_free(s: Seq<char>, b: Seq<char>)
    requires
        sep_free(b),
    ensures
        spec_split(s + b) == spec_split(s).update(
            spec_split(s).len() - 1,
            spec_split(s).last() + b,
        ),
    decreases b.len(),
{
    lemma_split_shape(s);
    if b.len() == 0 {
        assert(s + b =~= s);
        assert(spec_split(s).last() + b =~= spec_split(s).last());
        assert(spec_split(s).update(spec_split(s).len() - 1, spec_split(s).last() + b) =~= spec_split(
            s,
        ));
    } else {
        lemma_split_append_free(s, b.drop_last());
        let t = s + b;
        assert(t.drop_last() =~= s + b.drop_last());
        assert(t.last() == b.last());
        assert(!is_sep(t.last()));
        let r = spec_split(s + b.drop_last());
        assert(spec_split(t) == r.update(r.len() - 1, r.last().push(t.last())));
        let r0 = spec_split(s);
        assert(r == r0.update(r0.len() - 1, r0.last() + b.drop_last()));
        assert(r.last() == r0.last() + b.drop_last());
        assert(r.last().push(b.last()) =~= r0.last() + b);
        assert(r.update(r.len() - 1, r.last().push(t.last())) =~= r0.update(
            r0.len() - 1,
            r0.last() + b,
        ));
    }
}

/// Splitting the join of separator-free segments restores the segments.
pub proof fn lemma_split_join(ss: Seq<Seq<char>>)
    requires
        ss.len() >= 1,
        forall|k: int| 0 <= k < ss.len() ==> sep_free(#[trigger] ss[k]),
    ensures
        spec_split(spec_join(ss)) == ss,
    decreases ss.len(),
{
    if ss.len() == 1 {
        lemma_split_append_free(Seq::empty(), ss[0]);
        assert(Seq::<char>::empty() + ss[0] =~= ss[0]);
        assert(spec_split(Seq::<char>::empty()) =~= seq![Seq::<char>::empty()]);
        assert(spec_split(ss[0]) =~= seq![ss[0]]);
        assert(seq![ss[0]] =~= ss);
    } else {
        lemma_split_join(ss.drop_last());
        let pre = spec_join(ss.drop_last());
        let t = pre + seq!['/'];
        assert(t.drop_last() =~= pre);
        assert(is_sep(t.last()));
        assert(spec_split(t) == spec_split(pre).push(Seq::empty()));
        lemma_split_append_free(t, ss.last());
        let r = spec_split(t);
        assert(r.last() =~= Seq::<char>::empty());
        assert(r.last() + ss.last() =~= ss.last());
        assert(spec_join(ss) =~= t + ss.last());
        assert(spec_split(spec_join(ss)) == r.update(r.len() - 1, r.last() + ss.last()));
        assert(r.update(r.len() - 1, r.last() + ss.last()) =~= ss);
    }
}

/// Exec equality of two string slices, decided character by character.
pub fn str_eq(a: &str, b: &str) -> (r: bool)
    ensures
        r == (a@ == b@),
{
    let na = a.unicode_len();
    let nb = b.unicode_len();
    if na != nb {
        assert(a@.len() != b@.len());
        return false;
    }
    let mut i: usize = 0;
    while i < na
        invariant
            na == a@.len(),
            na == b@.len(),
            0 <= i <= na,
            forall|j: int| 0 <= j < i ==> a@[j] == b@[j],
        decreases na - i,
    {
        if a.get_char(i) != b.get_char(i) {
            return false;
        }
        i += 1;
    }
    proof {
        assert(a@ =~= b@);
    }
    true
}

/// Exec test for a separator character.
pub fn is_sep_char(c: char) -> (r: bool)
    ensures
        r == is_sep(c),
{
    c == '/' || c == '\\'
}

/// Splits the characters of `s` from position `from` on separators.
pub fn split_from(s: &str, from: usize) -> (segs: Vec<String>)
    requires
        from <= s@.len(),
    ensures
        views_of(segs@) == spec_split(s@.skip(from as int)),
        segs@.len() >= 1,
{
    let n = s.unicode_len();
    let mut segs: Vec<String> = Vec::new();
    segs.push(String::new());
    proof {
        assert(s@.skip(from as int).take(0) =~= Seq::<char>::empty());
        assert(views_of(segs@) =~= seq![Seq::<char>::empty()]);
    }
    let mut i: usize = from;
    while i < n
        invariant
            from <= i <= n,
            n == s@.len(),
            segs@.len() >= 1,
            views_of(segs@) == spec_split(s@.skip(from as int).take(i - from)),
        decreases n - i,
    {
        let ghost pre = s@.skip(from as int).take(i - from);
        let ghost cur = s@.skip(from as int).take(i + 1 - from);
        proof {
            assert(cur.drop_last() =~= pre);
            assert(cur.last() == s@[i as int]);
        }
        let c = s.get_char(i);
        if is_sep_char(c) {
            segs.push(String::new());
            proof {
                assert(views_of(segs@) =~= spec_split(pre).push(Seq::<char>::empty()));
            }
        } else {
            let seg = s.substring_char(i, i + 1);
            proof {
                assert(seg@ =~= seq![s@[i as int]]);
            }
            let mut last = segs.pop().unwrap();
            last.append(seg);
            segs.push(last);
            proof {
                let r = spec_split(pre);
                assert(r.last().push(s@[i as int]) =~= r.last() + seg@);
                assert(views_of(segs@) =~= r.update(r.len() - 1, r.last().push(s@[i as int])));
            }
        }
        i += 1;
    }
    proof {
        assert(s@.skip(from as int).take(n - from) =~= s@.skip(from as int));
    }
    segs
}

/// The empty segments removed, keeping order.
pub open spec fn nonempty_segs(ss: Seq<Seq<char>>) -> Seq<Seq<char>>
    decreases ss.len(),
{
    if ss.len() == 0 {
        Seq::empty()
    } else {
        let r = nonempty_segs(ss.drop_last());
        if ss.last().len() > 0 {
            r.push(ss.last())
        } else {
            r
        }
    }
}

/// Drops the empty segments of `segs`, keeping order.
pub fn filter_nonempty(segs: Vec<String>) -> (out: Vec<String>)
    ensures
        views_of(out@) == nonempty_segs(views_of(segs@)),
{
    let n = segs.len();
    let mut out: Vec<String> = Vec::new();
    proof {
        assert(views_of(segs@).take(0) =~= Seq::<Seq<char>>::empty());
        assert(views_of(out@) =~= nonempty_segs(views_of(segs@).take(0)));
    }
    let mut i: usize = 0;
    while i < n
        invariant
            0 <= i <= n,
            n == segs@.len(),
            views_of(out@) == nonempty_segs(views_of(segs@).take(i as int)),
        decreases n - i,
    {
        let ghost pre = views_of(segs@).take(i as int);
        let ghost cur = views_of(segs@).take(i + 1);
        proof {
            assert(cur.drop_last() =~= pre);
            assert(cur.last() == segs@[i as int]@);
        }
        let seg = &segs[i];
        if seg.as_str().unicode_len() > 0 {
            let copy = String::from_str(segs[i].as_str());
            out.push(copy);
            proof {
                assert(views_of(out@) =~= nonempty_segs(pre).push(segs@[i as int]@));
            }
        } else {
            proof {
                assert(views_of(out@) =~= nonempty_segs(cur));
            }
        }
        i += 1;
    }
    proof {
        assert(views_of(segs@).take(n as int) =~= views_of(segs@));
    }
    out
}

/// Joins segments with a forward slash between each pair.
pub fn join_segments(segs: &Vec<String>) -> (out: String)
    requires
        segs@.len() >= 1,
    ensures
        out@ == spec_join(views_of(segs@)),
{
    let mut out = String::from_str(segs[0].as_str());
    proof {
        assert(views_of(segs@).take(1).len() == 1);
        assert(views_of(segs@).take(1)[0] == segs@[0]@);
        assert(out@ == spec_join(views_of(segs@).take(1)));
    }
    let n = segs.len();
    let mut i: usize = 1;
    while i < n
        invariant
            1 <= i <= n,
            n == segs@.len(),
            out@ == spec_join(views_of(segs@).take(i as int)),
        decreases n - i,
    {
        let ghost pre = views_of(segs@).take(i as int);
        let ghost cur = views_of(segs@).take(i + 1);
        proof {
            reveal_strlit("/");
            assert(cur.drop_last() =~= pre);
            assert(cur.last() == segs@[i as int]@);
        }
        out.append("/");
        out.append(segs[i].as_str());
        proof {
            assert(out@ =~= spec_join(pre) + seq!['/'] + segs@[i as int]@);
        }
        i += 1;
    }
    proof {
        assert(views_of(segs@).take(n as int) =~= views_of(segs@));
    }
    out
}

/// A leading separator contributes one empty segment at the front.
pub proof fn lemma_split_sep_prepend(s: Seq<char>)
    ensures
        spec_split(seq!['/'] + s) == seq![Seq::<char>::empty()] + spec_split(s),
    decreases s.len(),
{
    let t = seq!['/'] + s;
    if s.len() == 0 {
        assert(t =~= seq!['/']);
        assert(t.drop_last() =~= Seq::<char>::empty());
        assert(is_sep(t.last()));
        assert(spec_split(t) == spec_split(Seq::<char>::empty()).push(Seq::<char>::empty()));
        assert(spec_split(t) =~~= seq![Seq::<char>::empty()] + spec_split(s));
    } else {
        lemma_split_sep_prepend(s.drop_last());
        lemma_split_shape(s.drop_last());
        assert(t.drop_last() =~= seq!['/'] + s.drop_last());
        assert(t.last() == s.last());
        let r0 = spec_split(s.drop_last());
        let r = seq![Seq::<char>::empty()] + r0;
        assert(spec_split(t.drop_last()) == r);
        if is_sep(s.last()) {
            assert(spec_split(t) == r.push(Seq::<char>::empty()));
            assert(r.push(Seq::<char>::empty()) =~= seq![Seq::<char>::empty()] + r0.push(
                Seq::<char>::empty(),
            ));
        } else {
            assert(r.last() == r0.last());
            assert(spec_split(t) == r.update(r.len() - 1, r.last().push(s.last())));
            assert(r.update(r.len() - 1, r.last().push(s.last())) =~= seq![Seq::<char>::empty()]
                + r0.update(r0.len() - 1, r0.last().push(s.last())));
        }
    }
}

/// An empty segment at the front disappears when empty segments are
/// dropped.
pub proof fn lemma_nonempty_drop_empty_head(ss: Seq<Seq<char>>)
    ensures
        nonempty_segs(seq![Seq::<char>::empty()] + ss) == nonempty_segs(ss),
    decreases ss.len(),
{
    let t = seq![Seq::<char>::empty()] + ss;
    if ss.len() == 0 {
        assert(t =~~= seq![Seq::<char>::empty()]);
        assert(t.drop_last() =~= Seq::<Seq<char>>::empty());
        assert(t.last().len() == 0);
        assert(nonempty_segs(t) == nonempty_segs(t.drop_last()));
        assert(nonempty_segs(t) =~= nonempty_segs(ss));
    } else {
        lemma_nonempty_drop_empty_head(ss.drop_last());
        assert(t.drop_last() =~= seq![Seq::<char>::empty()] + ss.drop_last());
        assert(t.last() == ss.last());
    }
}

/// A character with backslash canonicalized to the forward slash.
pub open spec fn char_norm(c: char) -> char {
    if c == '\\' {
        '/'
    } else {
        c
    }
}

/// The position in `s` after stripping every leading repetition of `base`,
/// comparing characters with backslashes canonicalized on the path side.
pub open spec fn spec_strip_from(s: Seq<char>, base: Seq<char>, from: int) -> int
    decreases s.len() - from,
{
    if base.len() > 0 && from + base.len() <= s.len() && (forall|j: int|
        0 <= j < base.len() ==> char_norm(s[from + j]) == base[j]) {
        spec_strip_from(s, base, from + base.len())
    } else {
        from
    }
}

/// Strips every leading repetition of `base` from the characters of `s`,
/// returning the position where the remainder starts.
pub fn strip_prefix_repeated(s: &str, base: &str) -> (k: usize)
    ensures
        k == spec_strip_from(s@, base@, 0),
        k <= s@.len(),
{
    let n = s.unicode_len();
    let m = base.unicode_len();
    let mut k: usize = 0;
    loop
        invariant
            0 <= k <= n,
            n == s@.len(),
            m == base@.len(),
            spec_strip_from(s@, base@, 0) == spec_strip_from(s@, base@, k as int),
        decreases n - k,
    {
        if m == 0 || n - k < m {
            proof {
                assert(spec_strip_from(s@, base@, k as int) == k);
            }
            return k;
        }
        let mut j: usize = 0;
        while j < m
            invariant
                0 <= j <= m,
                m == base@.len(),
                0 <= k,
                k + m <= n,
                n == s@.len(),
                spec_strip_from(s@, base@, 0) == spec_strip_from(s@, base@, k as int),
                forall|t: int| 0 <= t < j ==> char_norm(s@[k + t]) == base@[t],
            decreases m - j,
        {
            let c = s.get_char(k + j);
            let b = base.get_char(j);
            let cn = if c == '\\' {
                '/'
            } else {
                c
            };
            if cn != b {
                proof {
                    assert(char_norm(s@[k + j]) != base@[j as int]);
                    assert(!(forall|t: int|
                        0 <= t < base@.len() ==> char_norm(s@[k + t]) == base@[t]));
                    assert(spec_strip_from(s@, base@, k as int) == k);
                }
                return k;
            }
            proof {
                assert(char_norm(s@[k + j]) == base@[j as int]);
            }
            j += 1;
        }
        proof {
            assert(forall|t: int| 0 <= t < base@.len() ==> char_norm(s@[k + t]) == base@[t]);
            assert(spec_strip_from(s@, base@, k as int) == spec_strip_from(
                s@,
                base@,
                k as int + base@.len(),
            ));
        }
        k = k + m;
    }
}

/// Whether `e` spells the PNG extension, ignoring ASCII case.
pub open spec fn is_png_ext(e: Seq<char>) -> bool {
    e.len() == 3 && (e[0] == 'p' || e[0] == 'P') && (e[1] == 'n' || e[1] == 'N') && (e[2] == 'g'
        || e[2] == 'G')
}

/// The position after the last dot of `s`, or `s.len() + 1` when `s` has no
/// extension. A dot at the very start does not begin an extension, matching
/// how a leading dot marks a hidden file rather than an extension.
pub open spec fn spec_ext_start(s: Seq<char>) -> int
    decreases s.len(),
{
    if s.len() <= 1 {
        s.len() as int + 1
    } else if s.last() == '.' {
        s.len() as int
    } else {
        let r = spec_ext_start(s.drop_last());
        if r <= s.len() - 1 {
            r
        } else {
            s.len() as int + 1
        }
    }
}

/// The extension of the file name `s`: the characters after the last dot,
/// when that dot is neither the first character nor absent.
pub open spec fn spec_ext(s: Seq<char>) -> Option<Seq<char>> {
    if spec_ext_start(s) <= s.len() {
        Some(s.skip(spec_ext_start(s)))
    } else {
        None
    }
}

/// The last-dot position stays within the string or just past it.
pub proof fn lemma_ext_start_shape(s: Seq<char>)
    ensures
        spec_ext_start(s) <= s.len() + 1,
        spec_ext_start(s) >= 1,
    decreases s.len(),
{
    if s.len() > 1 && s.last() != '.' {
        lemma_ext_start_shape(s.drop_last());
    }
}

/// When no dot occurs at position `i` or later, the extension of `s` is
/// decided by its first `i` characters.
proof fn lemma_ext_start_suffix(s: Seq<char>, i: int)
    requires
        0 <= i <= s.len(),
        forall|j: int| i <= j < s.len() ==> s[j] != '.',
    ensures
        spec_ext_start(s) == if spec_ext_start(s.take(i)) <= i {
            spec_ext_start(s.take(i))
        } else {
            s.len() as int + 1
        },
    decreases s.len() - i,
{
    lemma_ext_start_shape(s.take(i));
    if i == s.len() {
        assert(s.take(i) =~= s);
        lemma_ext_start_shape(s);
    } else {
        lemma_ext_start_suffix(s.drop_last(), i);
        assert(s.drop_last().take(i) =~= s.take(i));
        assert(s.last() == s[s.len() - 1]);
        assert(s.last() != '.');
        if s.len() <= 1 {
            assert(i == 0);
        }
    }
}

/// The extension of `s`, as its start position, or `s.len() + 1` when there
/// is none.
pub fn ext_start(s: &str) -> (k: usize)
    requires
        s@.len() + 1 <= usize::MAX,
    ensures
        k == spec_ext_start(s@),
{
    let n = s.unicode_len();
    let mut i: usize = n;
    while i > 1
        invariant
            0 <= i <= n,
            n >= 1 ==> i >= 1,
            n == s@.len(),
            forall|j: int| i <= j < n ==> s@[j] != '.',
        decreases i,
    {
        if s.get_char(i - 1) == '.' {
            proof {
                lemma_ext_start_suffix(s@, i as int);
                let t = s@.take(i as int);
                assert(t.len() == i);
                assert(t.last() == s@[i - 1]);
                assert(t.last() == '.');
                assert(spec_ext_start(t) == i);
            }
            return i;
        }
        i -= 1;
    }
    proof {
        if n == 0 {
            assert(spec_ext_start(s@) == 1);
        } else {
            assert(i == 1);
            lemma_ext_start_suffix(s@, 1int);
            let t = s@.take(1int);
            assert(t.len() == 1);
            assert(spec_ext_start(t) == 2);
        }
    }
    n + 1
}

} // verus!
