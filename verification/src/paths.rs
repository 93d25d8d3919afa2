//! Unix path text, read the way `std::path::Path` reads it: file names,
//! extensions, joining, and component prefixes.

use vstd::prelude::*;


verus! {

/// Where the `/`-free run of characters that ends at `end` starts.
pub open spec fn segment_start(p: Seq<char>, end: int) -> int
    decreases end,
{
    if end <= 0 {
        0
    } else if p[end - 1] == '/' {
        end
    } else {
        segment_start(p, end - 1)
    }
}

pub proof fn lemma_segment_start(p: Seq<char>, end: int)
    requires
        0 <= end <= p.len(),
    ensures
        0 <= segment_start(p, end) <= end,
        end > 0 && p[end - 1] != '/' ==> segment_start(p, end) < end,
        forall|i: int| segment_start(p, end) <= i < end ==> p[i] != '/',
        segment_start(p, end) > 0 ==> p[segment_start(p, end) - 1] == '/',
    decreases end,
{
    if end > 0 && p[end - 1] != '/' {
        lemma_segment_start(p, end - 1);
    }
}

/// The bounds of the file name among the first `end` characters of `p`: the
/// last component, after trailing `/` and `.` components are set aside; none
/// when that component is `..` or there is none.
pub open spec fn name_span_before(p: Seq<char>, end: int) -> Option<(int, int)>
    decreases end,
{
    if end <= 0 || end > p.len() {
        None
    } else if p[end - 1] == '/' {
        name_span_before(p, end - 1)
    } else {
        let start = segment_start(p, end);
        let seg = p.subrange(start, end);
        if seg == seq!['.'] {
            proof {
                lemma_segment_start(p, end);
            }
            name_span_before(p, start)
        } else if seg == seq!['.', '.'] {
            None
        } else {
            Some((start, end))
        }
    }
}

/// The bounds of the file name of `p` (`Path::file_name`).
pub open spec fn name_span(p: Seq<char>) -> Option<(int, int)> {
    name_span_before(p, p.len() as int)
}

/// The index of the last `.` among the first `end` characters of `s`.
pub open spec fn last_dot_before(s: Seq<char>, end: int) -> Option<int>
    decreases end,
{
    if end <= 0 {
        None
    } else if s[end - 1] == '.' {
        Some(end - 1)
    } else {
        last_dot_before(s, end - 1)
    }
}

/// The index of the dot that starts the extension of a file name: the last
/// `.`, unless it is the name's first character.
pub open spec fn extension_dot(name: Seq<char>) -> Option<int> {
    match last_dot_before(name, name.len() as int) {
        Some(k) => if k == 0 {
            None
        } else {
            Some(k)
        },
        None => None,
    }
}

/// The extension of `p` (`Path::extension`).
pub open spec fn extension(p: Seq<char>) -> Option<Seq<char>> {
    match name_span(p) {
        Some((s, e)) => match extension_dot(p.subrange(s, e)) {
            Some(k) => Some(p.subrange(s + k + 1, e)),
            None => None,
        },
        None => None,
    }
}

/// The stem of the file name of `p` (`Path::file_stem`): the name without
/// its extension.
pub open spec fn file_stem(p: Seq<char>) -> Option<Seq<char>> {
    match name_span(p) {
        Some((s, e)) => match extension_dot(p.subrange(s, e)) {
            Some(k) => Some(p.subrange(s, s + k)),
            None => Some(p.subrange(s, e)),
        },
        None => None,
    }
}

/// `base` joined with `rel` (`Path::join`): `rel` itself when it is
/// absolute, else `rel` after `base` with one `/` between them when `base`
/// does not already end with one.
pub open spec fn join(base: Seq<char>, rel: Seq<char>) -> Seq<char> {
    if rel.len() > 0 && rel[0] == '/' {
        rel
    } else if base.len() > 0 && base.last() != '/' {
        base + seq!['/'] + rel
    } else {
        base + rel
    }
}

/// `p` with its extension set to `html` (`Path::with_extension`): the path
/// cut after the stem of its file name, then `.html`; `p` unchanged when it
/// has no file name.
pub open spec fn with_html(p: Seq<char>) -> Seq<char> {
    match name_span(p) {
        Some((s, e)) => {
            let stem_end = match extension_dot(p.subrange(s, e)) {
                Some(k) => s + k,
                None => e,
            };
            p.take(stem_end) + seq!['.', 'h', 't', 'm', 'l']
        },
        None => p,
    }
}

/// `s` cut into the runs between the occurrences of `sep` (`str::split`).
pub open spec fn split_on(s: Seq<char>, sep: char) -> Seq<Seq<char>>
    decreases s.len(),
{
    if s.len() == 0 {
        seq![Seq::empty()]
    } else {
        let init = split_on(s.drop_last(), sep);
        if s.last() == sep {
            init.push(Seq::empty())
        } else {
            init.update(init.len() - 1, init.last().push(s.last()))
        }
    }
}

pub proof fn lemma_split_on_nonempty(s: Seq<char>, sep: char)
    ensures
        split_on(s, sep).len() >= 1,
    decreases s.len(),
{
    if s.len() > 0 {
        lemma_split_on_nonempty(s.drop_last(), sep);
    }
}

/// The runs that count as components: non-empty, and, when `drop_dots`, not
/// `.`.
pub open spec fn kept(drop_dots: bool) -> spec_fn(Seq<char>) -> bool {
    |seg: Seq<char>| seg.len() > 0 && !(drop_dots && seg == seq!['.'])
}

/// The views of a sequence of character vectors.
pub open spec fn views(v: Seq<Vec<char>>) -> Seq<Seq<char>> {
    v.map_values(|x: Vec<char>| x@)
}

/// The runs of `cs` between occurrences of `sep` that `kept(drop_dots)`
/// accepts, in order.
pub fn kept_runs(cs: &Vec<char>, sep: char, drop_dots: bool) -> (out: Vec<Vec<char>>)
    ensures
        views(out@) == split_on(cs@, sep).filter(kept(drop_dots)),
{
    let mut out: Vec<Vec<char>> = Vec::new();
    let mut cur: Vec<char> = Vec::new();
    let mut i: usize = 0;
    proof {
        assert(cs@.take(0) =~= Seq::<char>::empty());
        assert(split_on(Seq::<char>::empty(), sep).drop_last() =~= Seq::<Seq<char>>::empty());
        reveal(Seq::filter);
        assert(views(out@) =~= Seq::<Seq<char>>::empty());
    }
    while i < cs.len()
        invariant
            0 <= i <= cs@.len(),
            split_on(cs@.take(i as int), sep).len() >= 1,
            views(out@) == split_on(cs@.take(i as int), sep).drop_last().filter(kept(drop_dots)),
            cur@ == split_on(cs@.take(i as int), sep).last(),
        decreases cs@.len() - i,
    {
        let c = cs[i];
        let ghost pre = split_on(cs@.take(i as int), sep);
        proof {
            assert(cs@.take(i + 1).drop_last() =~= cs@.take(i as int));
            assert(cs@.take(i + 1).last() == c);
        }
        if c == sep {
            let keep = cur.len() > 0 && !(drop_dots && cur.len() == 1 && cur[0] == '.');
            proof {
                assert(keep == kept(drop_dots)(cur@)) by {
                    if cur@.len() == 1 {
                        if cur@[0] == '.' {
                            assert(cur@ =~= seq!['.']);
                        }
                    }
                }
                assert(split_on(cs@.take(i + 1), sep) == pre.push(Seq::empty()));
                assert(pre.push(Seq::<char>::empty()).drop_last() =~= pre);
                assert(pre =~= pre.drop_last().push(pre.last()));
                pre.drop_last().lemma_filter_push(pre.last(), kept(drop_dots));
            }
            if keep {
                let ghost before = out@;
                out.push(cur);
                proof {
                    assert(views(out@) =~= views(before).push(pre.last()));
                }
            }
            cur = Vec::new();
        } else {
            cur.push(c);
            proof {
                let post = split_on(cs@.take(i + 1), sep);
                assert(post == pre.update(pre.len() - 1, pre.last().push(c)));
                assert(post.drop_last() =~= pre.drop_last());
            }
        }
        i = i + 1;
    }
    proof {
        let all = split_on(cs@, sep);
        assert(cs@.take(cs@.len() as int) =~= cs@);
        assert(all =~= all.drop_last().push(all.last()));
        all.drop_last().lemma_filter_push(all.last(), kept(drop_dots));
    }
    if cur.len() > 0 && !(drop_dots && cur.len() == 1 && cur[0] == '.') {
        let ghost before = out@;
        out.push(cur);
        proof {
            assert(views(out@) =~= views(before).push(split_on(cs@, sep).last()));
        }
    } else {
        proof {
            if cur@.len() == 1 && cur@[0] == '.' {
                assert(cur@ =~= seq!['.']);
            }
        }
    }
    out
}

/// The components of `p` (`Path::components`), a root written as `/` and a
/// leading current-directory mark as `.`.
pub open spec fn components(p: Seq<char>) -> Seq<Seq<char>> {
    let lead = if p.len() > 0 && p[0] == '/' {
        seq![seq!['/']]
    } else if p == seq!['.'] || (p.len() >= 2 && p[0] == '.' && p[1] == '/') {
        seq![seq!['.']]
    } else {
        Seq::empty()
    };
    lead + split_on(p, '/').filter(kept(true))
}

/// Whether the components of `base` begin those of `p` (`Path::starts_with`).
pub open spec fn path_starts_with(p: Seq<char>, base: Seq<char>) -> bool {
    let c = components(p);
    let b = components(base);
    b.len() <= c.len() && c.take(b.len() as int) == b
}

/// Appends all of `src` to `dst`.
pub fn append_chars(dst: &mut Vec<char>, src: &Vec<char>)
    ensures
        final(dst)@ == old(dst)@ + src@,
{
    let ghost start = dst@;
    let mut i: usize = 0;
    while i < src.len()
        invariant
            i <= src@.len(),
            dst@ == start + src@.take(i as int),
        decreases src@.len() - i,
    {
        dst.push(src[i]);
        proof {
            assert(src@.take(i + 1) =~= src@.take(i as int).push(src@[i as int]));
        }
        i = i + 1;
    }
    proof {
        assert(src@.take(src@.len() as int) =~= src@);
    }
}

/// Whether two character vectors hold the same characters.
pub fn same_chars(a: &Vec<char>, b: &Vec<char>) -> (r: bool)
    ensures
        r == (a@ == b@),
{
    if a.len() != b.len() {
        return false;
    }
    let mut i: usize = 0;
    while i < a.len()
        invariant
            a@.len() == b@.len(),
            i <= a@.len(),
            forall|k: int| 0 <= k < i ==> a@[k] == b@[k],
        decreases a@.len() - i,
    {
        if a[i] != b[i] {
            return false;
        }
        i = i + 1;
    }
    assert(a@ =~= b@);
    true
}

/// Whether `cs[lo..hi]` holds exactly the characters of `lit`.
pub fn range_is(cs: &Vec<char>, lo: usize, hi: usize, lit: &[char]) -> (r: bool)
    requires
        lo <= hi <= cs@.len(),
    ensures
        r == (cs@.subrange(lo as int, hi as int) == lit@),
{
    if hi - lo != lit.len() {
        return false;
    }
    let mut i: usize = 0;
    while i < lit.len()
        invariant
            lo <= hi <= cs@.len(),
            hi - lo == lit@.len(),
            i <= lit@.len(),
            forall|k: int| 0 <= k < i ==> cs@[lo + k] == lit@[k],
        decreases lit@.len() - i,
    {
        if cs[lo + i] != lit[i] {
            assert(cs@.subrange(lo as int, hi as int)[i as int] != lit@[i as int]);
            return false;
        }
        i = i + 1;
    }
    assert(cs@.subrange(lo as int, hi as int) =~= lit@);
    true
}

/// The bounds of the file name of `cs` (`Path::file_name`).
pub fn name_span_of(cs: &Vec<char>) -> (r: Option<(usize, usize)>)
    ensures
        r matches Some((s, e)) ==> name_span(cs@) == Some((s as int, e as int)) && s < e
            <= cs@.len(),
        r is None ==> name_span(cs@) is None,
{
    let mut end: usize = cs.len();
    loop
        invariant
            end <= cs@.len(),
            name_span(cs@) == name_span_before(cs@, end as int),
        decreases end,
    {
        if end == 0 {
            return None;
        }
        if cs[end - 1] == '/' {
            end = end - 1;
        } else {
            let mut start: usize = end - 1;
            while start > 0 && cs[start - 1] != '/'
                invariant
                    start < end <= cs@.len(),
                    cs@[end - 1] != '/',
                    segment_start(cs@, end as int) == segment_start(cs@, start as int),
                decreases start,
            {
                start = start - 1;
            }
            proof {
                lemma_segment_start(cs@, end as int);
                assert(segment_start(cs@, start as int) == start as int);
            }
            if range_is(cs, start, end, &['.']) {
                proof {
                    assert(['.']@ =~= seq!['.']);
                }
                end = start;
            } else if range_is(cs, start, end, &['.', '.']) {
                proof {
                    assert(['.']@ =~= seq!['.']);
                    assert(['.', '.']@ =~= seq!['.', '.']);
                }
                return None;
            } else {
                proof {
                    assert(['.']@ =~= seq!['.']);
                    assert(['.', '.']@ =~= seq!['.', '.']);
                }
                return Some((start, end));
            }
        }
    }
}

/// The index, within `cs[s..e]`, of the dot that starts its extension.
pub fn extension_dot_of(cs: &Vec<char>, s: usize, e: usize) -> (r: Option<usize>)
    requires
        s <= e <= cs@.len(),
    ensures
        r matches Some(k) ==> extension_dot(cs@.subrange(s as int, e as int)) == Some(k as int)
            && 0 < k < e - s,
        r is None ==> extension_dot(cs@.subrange(s as int, e as int)) is None,
{
    let ghost name = cs@.subrange(s as int, e as int);
    let mut j: usize = e - s;
    while j > 0 && cs[s + j - 1] != '.'
        invariant
            s <= e <= cs@.len(),
            j <= e - s,
            name == cs@.subrange(s as int, e as int),
            last_dot_before(name, name.len() as int) == last_dot_before(name, j as int),
        decreases j,
    {
        assert(name[j - 1] == cs@[s + j - 1]);
        j = j - 1;
    }
    if j == 0 {
        None
    } else {
        assert(name[j - 1] == cs@[s + j - 1]);
        if j - 1 == 0 {
            None
        } else {
            Some(j - 1)
        }
    }
}

/// `base` joined with `rel` (`Path::join`).
pub fn joined(base: &Vec<char>, rel: &Vec<char>) -> (out: Vec<char>)
    ensures
        out@ == join(base@, rel@),
{
    if rel.len() > 0 && rel[0] == '/' {
        let mut out: Vec<char> = Vec::new();
        append_chars(&mut out, rel);
        assert(out@ =~= rel@);
        return out;
    }
    let mut out: Vec<char> = Vec::new();
    append_chars(&mut out, base);
    if base.len() > 0 && base[base.len() - 1] != '/' {
        out.push('/');
    }
    append_chars(&mut out, rel);
    assert(out@ =~= join(base@, rel@));
    out
}

/// `cs` with its extension set to `html` (`Path::with_extension`).
pub fn with_html_of(cs: &Vec<char>) -> (out: Vec<char>)
    ensures
        out@ == with_html(cs@),
{
    let mut out: Vec<char> = Vec::new();
    match name_span_of(cs) {
        None => {
            append_chars(&mut out, cs);
            assert(out@ =~= cs@);
        },
        Some((s, e)) => {
            let stem_end: usize = match extension_dot_of(cs, s, e) {
                Some(k) => s + k,
                None => e,
            };
            let mut i: usize = 0;
            while i < stem_end
                invariant
                    stem_end <= cs@.len(),
                    i <= stem_end,
                    out@ == cs@.take(i as int),
                decreases stem_end - i,
            {
                out.push(cs[i]);
                assert(cs@.take(i + 1) =~= cs@.take(i as int).push(cs@[i as int]));
                i = i + 1;
            }
            out.push('.');
            out.push('h');
            out.push('t');
            out.push('m');
            out.push('l');
            assert(out@ =~= cs@.take(stem_end as int) + seq!['.', 'h', 't', 'm', 'l']);
        },
    }
    out
}

/// The stem of the file name of `cs` (`Path::file_stem`).
pub fn file_stem_of(cs: &Vec<char>) -> (out: Option<Vec<char>>)
    ensures
        out matches Some(v) ==> file_stem(cs@) == Some(v@),
        out is None ==> file_stem(cs@) is None,
{
    match name_span_of(cs) {
        None => None,
        Some((s, e)) => {
            let stop: usize = match extension_dot_of(cs, s, e) {
                Some(k) => s + k,
                None => e,
            };
            let mut out: Vec<char> = Vec::new();
            let mut i: usize = s;
            while i < stop
                invariant
                    s <= i <= stop <= cs@.len(),
                    out@ == cs@.subrange(s as int, i as int),
                decreases stop - i,
            {
                out.push(cs[i]);
                assert(cs@.subrange(s as int, i + 1) =~= cs@.subrange(s as int, i as int).push(
                    cs@[i as int],
                ));
                i = i + 1;
            }
            Some(out)
        },
    }
}

/// The components of `cs` (`Path::components`).
pub fn components_of(cs: &Vec<char>) -> (out: Vec<Vec<char>>)
    ensures
        views(out@) == components(cs@),
{
    let mut out: Vec<Vec<char>> = Vec::new();
    if cs.len() > 0 && cs[0] == '/' {
        let mut root: Vec<char> = Vec::new();
        root.push('/');
        out.push(root);
    } else if (cs.len() == 1 && cs[0] == '.') || (cs.len() >= 2 && cs[0] == '.' && cs[1] == '/') {
        let mut here: Vec<char> = Vec::new();
        here.push('.');
        out.push(here);
        proof {
            if cs@.len() == 1 {
                assert(cs@ =~= seq!['.']);
            }
        }
    } else {
        proof {
            if cs@ == seq!['.'] {
                assert(cs@.len() == 1 && cs@[0] == '.');
            }
        }
    }
    let ghost lead = views(out@);
    let rest = kept_runs(cs, '/', true);
    let mut i: usize = 0;
    while i < rest.len()
        invariant
            i <= rest@.len(),
            views(out@) == lead + views(rest@).take(i as int),
        decreases rest@.len() - i,
    {
        let mut piece: Vec<char> = Vec::new();
        append_chars(&mut piece, &rest[i]);
        assert(piece@ =~= rest@[i as int]@);
        let ghost before = out@;
        out.push(piece);
        assert(views(out@) =~= views(before).push(rest@[i as int]@));
        assert(views(rest@).take(i + 1) =~= views(rest@).take(i as int).push(rest@[i as int]@));
        assert(views(out@) =~= lead + views(rest@).take(i + 1));
        i = i + 1;
    }
    assert(views(rest@).take(rest@.len() as int) =~= views(rest@));
    assert(views(out@) =~= components(cs@));
    out
}

/// Whether the components of `base` begin those of `p` (`Path::starts_with`).
pub fn starts_with_path(p: &Vec<char>, base: &Vec<char>) -> (r: bool)
    ensures
        r == path_starts_with(p@, base@),
{
    let c = components_of(p);
    let b = components_of(base);
    if b.len() > c.len() {
        return false;
    }
    let mut i: usize = 0;
    while i < b.len()
        invariant
            b@.len() <= c@.len(),
            i <= b@.len(),
            views(c@) == components(p@),
            views(b@) == components(base@),
            forall|k: int| 0 <= k < i ==> views(c@)[k] == views(b@)[k],
        decreases b@.len() - i,
    {
        if !same_chars(&c[i], &b[i]) {
            assert(views(c@).take(views(b@).len() as int)[i as int] != views(b@)[i as int]);
            return false;
        }
        i = i + 1;
    }
    assert(views(c@).take(views(b@).len() as int) =~= views(b@));
    true
}

} // verus!
