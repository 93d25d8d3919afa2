//! New drafts: the slug a title gives, and the draft's first text.

use vstd::prelude::*;

use crate::date::{decimal, digit_char, iso_date, iso_text, valid_ymd, year_text, Date};
use crate::paths::{kept, kept_runs, split_on, views};
use crate::content::{fence, frontmatter_parts};
use crate::text::{chars_of, lemma_find_first, occurs_at, push_char};

verus! {

/// What `str::to_lowercase` gives for a text.
pub uninterp spec fn lowercased(text: Seq<char>) -> Seq<char>;

/// What `char::is_alphanumeric` says of a character.
pub uninterp spec fn alphanumeric(c: char) -> bool;

/// Whether `c` is an ASCII character.
pub open spec fn is_ascii_char(c: char) -> bool {
    (c as int) < 128
}

/// The ASCII lower-case form of `c`.
pub open spec fn ascii_lower(c: char) -> char {
    if 'A' <= c && c <= 'Z' {
        ((c as int) + 32) as char
    } else {
        c
    }
}

/// Lower-cases a text (`str::to_lowercase`).
///
/// Trusted: the result is std's lower-case form of the text; for an all-ASCII
/// text that is each letter `A` to `Z` lowered and every other character kept,
/// as Unicode's lower-case mapping has it.
#[verifier::external_body]
fn lowercase(text: &str) -> (out: String)
    ensures
        out@ == lowercased(text@),
        (forall|i: int| 0 <= i < text@.len() ==> is_ascii_char(#[trigger] text@[i])) ==> out@
            == text@.map_values(|c: char| ascii_lower(c)),
{
    text.to_lowercase()
}

/// Whether a character is alphabetic or numeric (`char::is_alphanumeric`).
///
/// Trusted: the answer is std's; for an ASCII character it is true exactly
/// for `A` to `Z`, `a` to `z` and `0` to `9`.
#[verifier::external_body]
fn is_alphanumeric(c: char) -> (r: bool)
    ensures
        r == alphanumeric(c),
        is_ascii_char(c) ==> (r <==> (('a' <= c && c <= 'z') || ('A' <= c && c <= 'Z') || ('0' <= c
            && c <= '9'))),
{
    c.is_alphanumeric()
}

/// A title character as it stands in a slug: kept when alphanumeric or `-`,
/// else `-`.
pub open spec fn slug_char(c: char) -> char {
    if alphanumeric(c) || c == '-' {
        c
    } else {
        '-'
    }
}

/// Runs joined with `-` between them.
pub open spec fn join_dash(runs: Seq<Seq<char>>) -> Seq<char>
    decreases runs.len(),
{
    if runs.len() == 0 {
        Seq::empty()
    } else if runs.len() == 1 {
        runs[0]
    } else {
        join_dash(runs.drop_last()) + seq!['-'] + runs.last()
    }
}

/// The slug of a lower-cased title: its characters as slug characters, cut
/// at each `-`, the empty runs dropped, joined again with single `-`.
pub open spec fn slug_of_lowered(lowered: Seq<char>) -> Seq<char> {
    join_dash(split_on(lowered.map_values(|c: char| slug_char(c)), '-').filter(kept(false)))
}

/// The slug a title gives.
pub open spec fn slug_for(title: Seq<char>) -> Seq<char> {
    slug_of_lowered(lowercased(title))
}

/// Whether `c` is an ASCII letter or digit.
pub open spec fn ascii_alphanumeric(c: char) -> bool {
    ('a' <= c && c <= 'z') || ('A' <= c && c <= 'Z') || ('0' <= c && c <= '9')
}

/// Whether every character of `s` is ASCII.
pub open spec fn all_ascii(s: Seq<char>) -> bool {
    forall|i: int| 0 <= i < s.len() ==> is_ascii_char(#[trigger] s[i])
}

/// A lower-cased ASCII character as it stands in a slug: kept when a letter,
/// a digit or `-`, else `-`.
pub open spec fn ascii_slug_char(c: char) -> char {
    if ascii_alphanumeric(c) || c == '-' {
        c
    } else {
        '-'
    }
}

/// The slug of an all-ASCII title, with every character's class known:
/// lower-cased, each character neither a letter, a digit nor `-` made a `-`,
/// cut at each `-`, the empty runs dropped, joined again with single `-`.
pub open spec fn ascii_slug(title: Seq<char>) -> Seq<char> {
    join_dash(
        split_on(title.map_values(|c: char| ascii_slug_char(ascii_lower(c))), '-').filter(
            kept(false),
        ),
    )
}

/// Whether a text holds an alphanumeric character.
pub open spec fn has_alphanumeric(s: Seq<char>) -> bool {
    exists|i: int| 0 <= i < s.len() && alphanumeric(#[trigger] s[i])
}

/// A slug shape: no `-` at either end and never two in a row.
pub open spec fn dashes_well_placed(s: Seq<char>) -> bool {
    s.len() > 0 ==> {
        &&& s[0] != '-'
        &&& s.last() != '-'
        &&& forall|i: int| 0 <= i < s.len() - 1 ==> !(s[i] == '-' && #[trigger] s[i + 1] == '-')
    }
}

/// Every run of `split_on(s, sep)` is made of characters of `s` other than
/// `sep`.
proof fn lemma_split_runs(s: Seq<char>, sep: char)
    ensures
        forall|k: int, i: int|
            0 <= k < split_on(s, sep).len() && 0 <= i < split_on(s, sep)[k].len() ==> {
                &&& #[trigger] split_on(s, sep)[k][i] != sep
                &&& s.contains(split_on(s, sep)[k][i])
            },
    decreases s.len(),
{
    if s.len() > 0 {
        let init = split_on(s.drop_last(), sep);
        lemma_split_runs(s.drop_last(), sep);
        crate::paths::lemma_split_on_nonempty(s.drop_last(), sep);
        assert forall|k: int, i: int|
            0 <= k < split_on(s, sep).len() && 0 <= i < split_on(s, sep)[k].len() implies {
            &&& #[trigger] split_on(s, sep)[k][i] != sep
            &&& s.contains(split_on(s, sep)[k][i])
        } by {
            let x = split_on(s, sep)[k][i];
            if s.last() == sep {
                assert(k < init.len());
                assert(s.drop_last().contains(x));
                let j = choose|j: int| 0 <= j < s.drop_last().len() && s.drop_last()[j] == x;
                assert(s[j] == x);
            } else if k < init.len() - 1 || i < init[k].len() {
                assert(x == init[k][i]);
                assert(s.drop_last().contains(x));
                let j = choose|j: int| 0 <= j < s.drop_last().len() && s.drop_last()[j] == x;
                assert(s[j] == x);
            } else {
                assert(x == s.last());
                assert(s[s.len() - 1] == x);
            }
        }
    }
}

/// Joining non-empty runs free of `-` gives a well-placed slug whose
/// characters come from the runs.
proof fn lemma_join_dash_shape(runs: Seq<Seq<char>>)
    requires
        forall|k: int| 0 <= k < runs.len() ==> (#[trigger] runs[k]).len() > 0,
        forall|k: int, i: int|
            0 <= k < runs.len() && 0 <= i < runs[k].len() ==> #[trigger] runs[k][i] != '-',
    ensures
        dashes_well_placed(join_dash(runs)),
        forall|i: int|
            0 <= i < join_dash(runs).len() ==> #[trigger] join_dash(runs)[i] == '-' || exists|
                k: int,
                j: int,
            | 0 <= k < runs.len() && 0 <= j < runs[k].len() && runs[k][j] == join_dash(runs)[i],
    decreases runs.len(),
{
    if runs.len() == 1 {
        let r = runs[0];
        assert forall|i: int| 0 <= i < join_dash(runs).len() implies #[trigger] join_dash(runs)[i] == '-'
            || exists|k: int, j: int|
            0 <= k < runs.len() && 0 <= j < runs[k].len() && runs[k][j] == join_dash(runs)[i] by {
            assert(runs[0][i] == join_dash(runs)[i]);
        }
        assert forall|i: int| 0 <= i < r.len() - 1 implies !(r[i] == '-' && #[trigger] r[i + 1] == '-') by {
            assert(runs[0][i] != '-');
        }
        assert(r[0] != '-');
        assert(r.last() == runs[0][r.len() - 1]);
    } else if runs.len() > 1 {
        let init = runs.drop_last();
        let a = join_dash(init);
        let b = runs.last();
        lemma_join_dash_shape(init);
        let t = a + seq!['-'] + b;
        assert(t == join_dash(runs));
        assert(init[0].len() > 0);
        assert(a.len() > 0) by {
            lemma_join_dash_len(init);
        }
        assert(b.len() > 0);
        assert(b[0] == runs[runs.len() - 1][0]);
        assert(b.last() == runs[runs.len() - 1][b.len() - 1]);
        assert forall|i: int| 0 <= i < t.len() - 1 implies !(t[i] == '-' && #[trigger] t[i + 1] == '-') by {
            if i < a.len() - 1 {
                assert(t[i] == a[i] && t[i + 1] == a[i + 1]);
            } else if i == a.len() - 1 {
                assert(t[i] == a.last());
            } else if i == a.len() {
                assert(t[i + 1] == b[0]);
            } else {
                assert(t[i] == b[i - a.len() - 1]);
                assert(b[i - a.len() - 1] == runs[runs.len() - 1][i - a.len() - 1]);
            }
        }
        assert(t[0] == a[0]);
        assert forall|i: int| 0 <= i < t.len() implies #[trigger] t[i] == '-' || exists|k: int, j: int|
            0 <= k < runs.len() && 0 <= j < runs[k].len() && runs[k][j] == t[i] by {
            if i < a.len() {
                assert(t[i] == a[i]);
                if a[i] != '-' {
                    let (k, j) = choose|k: int, j: int|
                        0 <= k < init.len() && 0 <= j < init[k].len() && init[k][j] == a[i];
                    assert(runs[k] == init[k]);
                }
            } else if i > a.len() {
                assert(t[i] == b[i - a.len() - 1]);
                assert(runs[runs.len() - 1][i - a.len() - 1] == t[i]);
            }
        }
    }
}

/// A text with a character other than `sep` has a non-empty run.
proof fn lemma_split_has_run(s: Seq<char>, sep: char, i: int)
    requires
        0 <= i < s.len(),
        s[i] != sep,
    ensures
        exists|k: int| 0 <= k < split_on(s, sep).len() && (#[trigger] split_on(s, sep)[k]).len() > 0,
    decreases s.len(),
{
    crate::paths::lemma_split_on_nonempty(s.drop_last(), sep);
    let init = split_on(s.drop_last(), sep);
    if s.last() != sep {
        let k = init.len() - 1;
        assert(split_on(s, sep)[k] == init.last().push(s.last()));
    } else {
        assert(s.drop_last()[i] == s[i]);
        lemma_split_has_run(s.drop_last(), sep, i);
        let k = choose|k: int| 0 <= k < init.len() && (#[trigger] init[k]).len() > 0;
        assert(split_on(s, sep)[k] == init[k]);
    }
}

proof fn lemma_join_dash_len(runs: Seq<Seq<char>>)
    requires
        runs.len() > 0,
        runs[0].len() > 0,
    ensures
        join_dash(runs).len() > 0,
    decreases runs.len(),
{
    if runs.len() > 1 {
        lemma_join_dash_len(runs.drop_last());
    }
}

/// The slug a title gives: lower-cased, every character that is neither
/// alphanumeric nor `-` made a `-`, runs of `-` made one, and none left at
/// either end.
pub fn slugify(title: &str) -> (slug: String)
    ensures
        slug@ == slug_for(title@),
        dashes_well_placed(slug@),
        forall|i: int| 0 <= i < slug@.len() ==> #[trigger] slug@[i] == '-' || alphanumeric(slug@[i]),
        slug@.len() > 0 <==> has_alphanumeric(lowercased(title@)),
        all_ascii(title@) ==> slug@ == ascii_slug(title@),
{
    let lower = lowercase(title);
    let cs = chars_of(lower.as_str());
    let ghost dashed_spec = cs@.map_values(|c: char| slug_char(c));
    let mut dashed: Vec<char> = Vec::new();
    let mut i: usize = 0;
    while i < cs.len()
        invariant
            i <= cs@.len(),
            dashed_spec == cs@.map_values(|c: char| slug_char(c)),
            dashed@ == dashed_spec.take(i as int),
            forall|j: int| 0 <= j < i && cs@[j] == '-' ==> !alphanumeric(#[trigger] cs@[j]),
            forall|j: int|
                0 <= j < i && is_ascii_char(cs@[j]) ==> (alphanumeric(#[trigger] cs@[j])
                    <==> ascii_alphanumeric(cs@[j])),
        decreases cs@.len() - i,
    {
        let c = cs[i];
        let a = is_alphanumeric(c);
        let d = if a || c == '-' {
            c
        } else {
            '-'
        };
        dashed.push(d);
        assert(dashed_spec.take(i + 1) =~= dashed_spec.take(i as int).push(d));
        i = i + 1;
    }
    assert(dashed_spec.take(cs@.len() as int) =~= dashed_spec);
    let runs = kept_runs(&dashed, '-', false);
    let ghost rs = views(runs@);
    let mut out = String::new();
    let mut k: usize = 0;
    while k < runs.len()
        invariant
            k <= runs@.len(),
            rs == views(runs@),
            out@ == join_dash(rs.take(k as int)),
        decreases runs@.len() - k,
    {
        let ghost before = out@;
        if k > 0 {
            push_char(&mut out, '-');
        }
        let run = &runs[k];
        assert(out@ =~= before + (if k > 0 { seq!['-'] } else { Seq::empty() }) + run@.take(0));
        let mut j: usize = 0;
        while j < run.len()
            invariant
                j <= run@.len(),
                out@ == before + (if k > 0 { seq!['-'] } else { Seq::empty() }) + run@.take(j as int),
            decreases run@.len() - j,
        {
            push_char(&mut out, run[j]);
            assert(run@.take(j + 1) =~= run@.take(j as int).push(run@[j as int]));
            j = j + 1;
        }
        proof {
            assert(run@.take(run@.len() as int) =~= run@);
            assert(rs.take(k + 1).drop_last() =~= rs.take(k as int));
            assert(rs.take(k + 1).last() == run@);
            if k == 0 {
                assert(out@ =~= join_dash(rs.take(1)));
            } else {
                assert(out@ =~= join_dash(rs.take(k + 1)));
            }
        }
        k = k + 1;
    }
    proof {
        assert(rs.take(runs@.len() as int) =~= rs);
        let all = split_on(dashed@, '-');
        lemma_split_runs(dashed@, '-');
        assert forall|k: int| 0 <= k < rs.len() implies (#[trigger] rs[k]).len() > 0 by {
            all.lemma_filter_pred(kept(false), k);
        }
        assert forall|k: int, i: int| 0 <= k < rs.len() && 0 <= i < rs[k].len() implies {
            &&& #[trigger] rs[k][i] != '-'
            &&& dashed@.contains(rs[k][i])
        } by {
            assert(rs.contains(rs[k]));
            all.lemma_filter_contains_rev(kept(false), rs[k]);
            let m = choose|m: int| 0 <= m < all.len() && all[m] == rs[k];
            assert(all[m][i] == rs[k][i]);
        }
        lemma_join_dash_shape(rs);
        assert forall|i: int| 0 <= i < out@.len() implies #[trigger] out@[i] == '-' || alphanumeric(out@[i]) by {
            if out@[i] != '-' {
                let (k, j) = choose|k: int, j: int|
                    0 <= k < rs.len() && 0 <= j < rs[k].len() && rs[k][j] == out@[i];
                assert(dashed@.contains(rs[k][j]));
                let m = choose|m: int| 0 <= m < dashed@.len() && dashed@[m] == rs[k][j];
                assert(dashed_spec[m] == slug_char(cs@[m]));
            }
        }
        assert(cs@ == lowercased(title@));
        if out@.len() > 0 {
            let (k, j) = choose|k: int, j: int|
                0 <= k < rs.len() && 0 <= j < rs[k].len() && rs[k][j] == out@[0];
            assert(dashed@.contains(rs[k][j]));
            let m = choose|m: int| 0 <= m < dashed@.len() && dashed@[m] == rs[k][j];
            assert(dashed_spec[m] == slug_char(cs@[m]));
            assert(alphanumeric(cs@[m]));
        }
        if has_alphanumeric(cs@) {
            let m = choose|m: int| 0 <= m < cs@.len() && alphanumeric(#[trigger] cs@[m]);
            assert(dashed@[m] == slug_char(cs@[m]));
            lemma_split_has_run(dashed@, '-', m);
            let k = choose|k: int| 0 <= k < all.len() && (#[trigger] all[k]).len() > 0;
            all.lemma_filter_contains(kept(false), k);
            assert(rs.len() > 0);
            lemma_join_dash_len(rs);
        }
        if all_ascii(title@) {
            let t = title@.map_values(|c: char| ascii_slug_char(ascii_lower(c)));
            assert forall|j: int| 0 <= j < cs@.len() implies is_ascii_char(#[trigger] cs@[j]) by {
                assert(is_ascii_char(title@[j]));
                assert(cs@[j] == ascii_lower(title@[j]));
            }
            assert(dashed@ =~= t);
        }
    }
    out
}

/// `s` with every `"` written as `\"`.
pub open spec fn escape_quotes(s: Seq<char>) -> Seq<char>
    decreases s.len(),
{
    if s.len() == 0 {
        Seq::empty()
    } else {
        escape_quotes(s.drop_last()) + if s.last() == '"' {
            seq!['\\', '"']
        } else {
            seq![s.last()]
        }
    }
}

/// Every `"` of an escaped text follows a backslash.
pub proof fn lemma_quotes_escaped(s: Seq<char>)
    ensures
        forall|i: int|
            0 <= i < escape_quotes(s).len() && #[trigger] escape_quotes(s)[i] == '"' ==> i > 0
                && escape_quotes(s)[i - 1] == '\\',
    decreases s.len(),
{
    if s.len() > 0 {
        lemma_quotes_escaped(s.drop_last());
        let a = escape_quotes(s.drop_last());
        let t = escape_quotes(s);
        assert forall|i: int| 0 <= i < t.len() && #[trigger] t[i] == '"' implies i > 0 && t[i - 1]
            == '\\' by {
            if i < a.len() {
                assert(t[i] == a[i] && t[i - 1] == a[i - 1]);
            }
        }
    }
}

/// Whether a character is a double quote.
pub open spec fn is_quote() -> spec_fn(char) -> bool {
    |c: char| c == '"'
}

/// The quotes before index `i` and the one at `i`, if any, are among those
/// of the whole text.
proof fn lemma_quotes_before(t: Seq<char>, i: int)
    requires
        0 <= i < t.len(),
    ensures
        t.take(i).filter(is_quote()).len() + (if t[i] == '"' {
            1int
        } else {
            0int
        }) <= t.filter(is_quote()).len(),
    decreases t.len(),
{
    let u = t.drop_last();
    assert(t =~= u.push(t.last()));
    u.lemma_filter_len_push(is_quote(), t.last());
    if i == t.len() - 1 {
        assert(t.take(i) =~= u);
    } else {
        assert(t.take(i) =~= u.take(i));
        assert(u[i] == t[i]);
        lemma_quotes_before(u, i);
    }
}

/// Escaping copies the title one for one, in order, and writes a backslash
/// before each `"` and nowhere else: the title's character at `i` stands at
/// `i` plus the number of `"` before it, just after a `\` when it is a `"`,
/// and the text is as long as the title and its `"` together.
pub proof fn lemma_escape_quotes_exact(s: Seq<char>)
    ensures
        escape_quotes(s).len() == s.len() + s.filter(is_quote()).len(),
        forall|i: int|
            #![trigger s[i]]
            0 <= i < s.len() ==> {
                let j = i + s.take(i).filter(is_quote()).len();
                if s[i] == '"' {
                    escape_quotes(s)[j] == '\\' && escape_quotes(s)[j + 1] == '"'
                } else {
                    escape_quotes(s)[j] == s[i]
                }
            },
    decreases s.len(),
{
    if s.len() == 0 {
        reveal(Seq::filter);
    } else {
        let t = s.drop_last();
        let c = s.last();
        lemma_escape_quotes_exact(t);
        assert(s =~= t.push(c));
        t.lemma_filter_len_push(is_quote(), c);
        let e = escape_quotes(s);
        let et = escape_quotes(t);
        assert forall|i: int| #![trigger s[i]] 0 <= i < s.len() implies {
            let j = i + s.take(i).filter(is_quote()).len();
            if s[i] == '"' {
                e[j] == '\\' && e[j + 1] == '"'
            } else {
                e[j] == s[i]
            }
        } by {
            if i < t.len() {
                assert(s.take(i) =~= t.take(i));
                assert(t[i] == s[i]);
                lemma_quotes_before(t, i);
            } else {
                assert(s.take(i) =~= t);
            }
        }
    }
}

fn push_escaped(out: &mut String, title: &str)
    ensures
        final(out)@ == old(out)@ + escape_quotes(title@),
{
    let cs = chars_of(title);
    let ghost start = out@;
    let mut i: usize = 0;
    while i < cs.len()
        invariant
            i <= cs@.len(),
            cs@ == title@,
            out@ == start + escape_quotes(cs@.take(i as int)),
        decreases cs@.len() - i,
    {
        let c = cs[i];
        if c == '"' {
            push_char(out, '\\');
            push_char(out, '"');
        } else {
            push_char(out, c);
        }
        assert(cs@.take(i + 1).drop_last() =~= cs@.take(i as int));
        assert(out@ =~= start + escape_quotes(cs@.take(i + 1)));
        i = i + 1;
    }
    assert(cs@.take(cs@.len() as int) =~= cs@);
}

/// The first text of a new draft: front matter with the title (quotes
/// escaped), the date as `YYYY-MM-DD`, `published: true`.
pub open spec fn draft_text(title: Seq<char>, date_iso: Seq<char>) -> Seq<char> {
    "---\ntitle: \""@ + escape_quotes(title) + "\"\ndate: "@ + date_iso
        + "\npublished: true\n---\n\n"@
}

/// The front matter of a new draft: the title line, the date line and the
/// published line.
pub open spec fn draft_yaml(title: Seq<char>, date_iso: Seq<char>) -> Seq<char> {
    "\ntitle: \""@ + escape_quotes(title) + "\"\ndate: "@ + date_iso + "\npublished: true\n"@
}

/// `s` holds no three `-` in a row.
pub open spec fn no_triple_dash(s: Seq<char>) -> bool {
    forall|i: int| 0 <= i && i + 2 < s.len() ==> !(#[trigger] s[i] == '-' && s[i + 1] == '-' && s[i + 2] == '-')
}

/// A new draft reads back as front matter and an empty body: cutting its
/// text at the `---` fences gives exactly the front matter it was written
/// with, when neither the escaped title nor the date holds `---`.
pub proof fn lemma_draft_front_matter(title: Seq<char>, date_iso: Seq<char>)
    requires
        no_triple_dash(escape_quotes(title)),
        no_triple_dash(date_iso),
    ensures
        frontmatter_parts(draft_text(title, date_iso)) == Some(
            (draft_yaml(title, date_iso), seq!['\n', '\n']),
        ),
{
    reveal_strlit("---\ntitle: \"");
    reveal_strlit("\"\ndate: ");
    reveal_strlit("\npublished: true\n---\n\n");
    reveal_strlit("\ntitle: \"");
    reveal_strlit("\npublished: true\n");
    let e = escape_quotes(title);
    let d = date_iso;
    let l1 = "\ntitle: \""@;
    let l2 = "\"\ndate: "@;
    let l3 = "\npublished: true\n"@;
    let y = draft_yaml(title, date_iso);
    let tail = seq!['\n', '\n'];
    let doc = draft_text(title, date_iso);
    assert(y =~= l1 + e + l2 + d + l3);
    assert(doc =~= fence() + y + fence() + tail);
    let rest = doc.skip(3);
    assert(rest =~= y + fence() + tail);
    let a = l1.len() as int;
    let b = a + e.len();
    let c = b + l2.len();
    let f = c + d.len();
    assert(y.len() == f + l3.len());
    // Every dash of the front matter comes from the title or the date.
    assert forall|k: int| 0 <= k < y.len() && y[k] == '-' implies (a <= k < b || c <= k < f) by {
        if k < a {
            assert(y[k] == l1[k]);
        } else if b <= k < c {
            assert(y[k] == l2[k - b]);
        } else if k >= f {
            assert(y[k] == l3[k - f]);
        }
    }
    assert forall|j: int| 0 <= j < y.len() implies !occurs_at(rest, fence(), j) by {
        if occurs_at(rest, fence(), j) {
            assert(rest.subrange(j, j + 3)[0] == '-');
            assert(rest.subrange(j, j + 3)[1] == '-');
            assert(rest.subrange(j, j + 3)[2] == '-');
            if j + 2 < y.len() {
                assert(rest[j] == y[j] && rest[j + 1] == y[j + 1] && rest[j + 2] == y[j + 2]);
                if a <= j < b {
                    assert(y[j] == e[j - a]);
                    assert(y[j + 1] == e[j + 1 - a]);
                    assert(y[j + 2] == e[j + 2 - a]);
                    assert(e[j - a] == '-' && e[j - a + 1] == '-' && e[j - a + 2] == '-');
                } else {
                    assert(y[j] == d[j - c]);
                    assert(y[j + 1] == d[j + 1 - c]);
                    assert(y[j + 2] == d[j + 2 - c]);
                    assert(d[j - c] == '-' && d[j - c + 1] == '-' && d[j - c + 2] == '-');
                }
            } else {
                let n = y.len() - 1;
                assert(y[n] == l3[l3.len() - 1]);
                assert(rest[n] == y[n]);
                assert(rest.subrange(j, j + 3)[n - j] == rest[n]);
            }
        }
    }
    assert(rest.subrange(y.len() as int, y.len() as int + 3) =~= fence());
    lemma_find_first(rest, fence(), 0, y.len() as int);
    assert(rest.take(y.len() as int) =~= y);
    assert(rest.skip(y.len() as int + 3) =~= tail);
    assert(doc.take(3) =~= fence());
}

/// No character of a number written in decimal is `-`.
proof fn lemma_decimal_dashless(n: nat)
    ensures
        forall|i: int| 0 <= i < decimal(n).len() ==> #[trigger] decimal(n)[i] != '-',
        decimal(n).len() >= 1,
    decreases n,
{
    if n >= 10 {
        lemma_decimal_dashless(n / 10);
        let a = decimal(n / 10);
        assert forall|i: int| 0 <= i < decimal(n).len() implies #[trigger] decimal(n)[i] != '-' by {
            if i < a.len() {
                assert(decimal(n)[i] == a[i]);
            }
        }
    }
}

/// A year's text has at least four characters, and only its first can be `-`.
proof fn lemma_year_text_dashes(y: int)
    ensures
        year_text(y).len() >= 4,
        forall|i: int| 0 < i < year_text(y).len() ==> #[trigger] year_text(y)[i] != '-',
{
    if !(0 <= y <= 9999) {
        let a: int = if y < 0 {
            -y
        } else {
            y
        };
        if a > 9999 {
            lemma_decimal_dashless(a as nat);
            assert(decimal(a as nat).len() >= 4) by {
                assert(decimal(a as nat) =~= decimal((a / 10) as nat) + seq![digit_char(a % 10)]);
                assert(decimal((a / 10) as nat) =~= decimal((a / 100) as nat) + seq![
                    digit_char((a / 10) % 10),
                ]);
                assert(decimal((a / 100) as nat) =~= decimal((a / 1000) as nat) + seq![
                    digit_char((a / 100) % 10),
                ]);
                lemma_decimal_dashless((a / 1000) as nat);
            }
            let t = year_text(y);
            let r = decimal(a as nat);
            assert forall|i: int| 0 < i < t.len() implies #[trigger] t[i] != '-' by {
                assert(t[i] == r[i - 1]);
            }
        }
    }
}

/// A new draft reads back as the front matter it was written with and an
/// empty body, when its escaped title holds no `---`: the date written as
/// `YYYY-MM-DD` never holds one.
pub proof fn lemma_new_draft_reads_back(title: Seq<char>, y: int, m: int, d: int)
    requires
        no_triple_dash(escape_quotes(title)),
        valid_ymd(y, m, d),
    ensures
        frontmatter_parts(draft_text(title, iso_text(y, m, d))) == Some(
            (draft_yaml(title, iso_text(y, m, d)), seq!['\n', '\n']),
        ),
{
    let t = iso_text(y, m, d);
    let yt = year_text(y);
    let l = yt.len() as int;
    lemma_year_text_dashes(y);
    assert(t.len() == l + 6);
    assert forall|i: int| 0 <= i < t.len() && #[trigger] t[i] == '-' implies (i == 0 || i == l || i
        == l + 3) by {
        if 0 < i < l {
            assert(t[i] == yt[i]);
        } else if i == l + 1 || i == l + 2 || i == l + 4 || i == l + 5 {
            assert(t[i] != '-');
        }
    }
    assert forall|i: int| 0 <= i && i + 2 < t.len() implies !(#[trigger] t[i] == '-' && t[i + 1]
        == '-' && t[i + 2] == '-') by {
        if t[i] == '-' && t[i + 1] == '-' {
            assert(i == 0 || i == l || i == l + 3);
            assert(i + 1 == 0 || i + 1 == l || i + 1 == l + 3);
        }
    }
    lemma_draft_front_matter(title, t);
}

/// The first text of a new draft titled `title`, created on `today`.
pub fn draft_content(title: &str, today: &Date) -> (out: String)
    ensures
        out@ == draft_text(title@, iso_text(today@.0, today@.1, today@.2)),
{
    let date = iso_date(today);
    let mut out = String::new();
    out.append("---\ntitle: \"");
    push_escaped(&mut out, title);
    out.append("\"\ndate: ");
    out.append(date.as_str());
    out.append("\npublished: true\n---\n\n");
    proof {
        assert(out@ =~= draft_text(title@, iso_text(today@.0, today@.1, today@.2)));
    }
    out
}

/// The file name of the draft for a title: its slug and `.md`.
pub fn draft_filename(title: &str) -> (out: String)
    ensures
        out@ == slug_for(title@) + ".md"@,
        all_ascii(title@) ==> out@ == ascii_slug(title@) + ".md"@,
{
    let mut out = slugify(title);
    out.append(".md");
    out
}

} // verus!
