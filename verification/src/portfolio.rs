use pulldown_cmark::{Event, Parser, Tag, TagEnd};
use vstd::prelude::*;

use crate::config::{join_path, joined, opt_chars};
use crate::data::{Difficulty, ProjectStatus};
use crate::text::{
    append_chars, char_is_alphanumeric, chars_of, is_alphanumeric, join_chars, join_with,
    nonempty_only, nonempty_pieces, separator, split_by, split_chars, string_of, trim, trimmed,
};

verus! {

/// `c` with an ASCII capital letter mapped to its small letter, as
/// `char::to_ascii_lowercase` maps it; every other character is unchanged.
pub open spec fn ascii_lower(c: char) -> char {
    if 'A' <= c <= 'Z' {
        ((c as u32) + 32) as char
    } else {
        c
    }
}

/// `c` with an ASCII capital letter mapped to its small letter (what
/// `char::to_ascii_lowercase` does).
fn to_ascii_lower(c: char) -> (r: char)
    ensures
        r == ascii_lower(c),
{
    if 'A' <= c && c <= 'Z' {
        let code: u8 = (c as u32 + 32) as u8;
        code as char
    } else {
        c
    }
}

/// The character that stands for `c` in a slug.
pub open spec fn slug_char(c: char) -> char {
    if is_alphanumeric(c) {
        ascii_lower(c)
    } else {
        '-'
    }
}

/// Each character of `s` replaced by what stands for it in a slug.
pub open spec fn slug_mapped(s: Seq<char>) -> Seq<char> {
    s.map_values(|c: char| slug_char(c))
}

/// The slug of `s`: each character that is not alphanumeric becomes `-`, letters
/// are lowercased (ASCII), and the runs between dashes that are not empty are
/// joined by single dashes.
pub open spec fn slug_of(s: Seq<char>) -> Seq<char> {
    join_with(
        nonempty_only(split_by(slug_mapped(s), separator(Some('-')))),
        seq!['-'],
    )
}

/// `t` looks like a slug: it neither starts nor ends with a dash, and no two
/// dashes stand next to each other.
pub open spec fn is_slug_shaped(t: Seq<char>) -> bool {
    &&& t.len() > 0 ==> t[0] != '-' && t.last() != '-'
    &&& forall|k: int| 0 <= k < t.len() - 1 && #[trigger] t[k] == '-' ==> t[k + 1] != '-'
}

/// `p` holds no dash.
pub open spec fn dash_free(p: Seq<char>) -> bool {
    forall|k: int| 0 <= k < p.len() ==> #[trigger] p[k] != '-'
}

proof fn lemma_split_dash_free(s: Seq<char>)
    ensures
        forall|i: int| 0 <= i < split_by(s, separator(Some('-'))).len()
            ==> dash_free(#[trigger] split_by(s, separator(Some('-')))[i]),
    decreases s.len(),
{
    if s.len() > 0 {
        let rest = split_by(s.drop_last(), separator(Some('-')));
        lemma_split_dash_free(s.drop_last());
        crate::text::lemma_split_nonempty(s.drop_last(), separator(Some('-')));
        let all = split_by(s, separator(Some('-')));
        assert forall|i: int| 0 <= i < all.len() implies dash_free(#[trigger] all[i]) by {
            if i < rest.len() - 1 {
                assert(all[i] == rest[i]);
            } else if i == rest.len() - 1 && s.last() != '-' {
                let p = rest.last().push(s.last());
                assert(all[i] == p);
                assert(dash_free(rest[rest.len() - 1]));
                assert forall|k: int| 0 <= k < p.len() implies #[trigger] p[k] != '-' by {
                    if k < p.len() - 1 {
                        assert(p[k] == rest.last()[k]);
                    }
                }
            } else if i == rest.len() - 1 {
                assert(all[i] == rest[i]);
            } else {
                assert(all[i] =~= Seq::<char>::empty());
            }
        }
    }
}

proof fn lemma_filter_nonempty_dash_free(pieces: Seq<Seq<char>>)
    requires
        forall|i: int| 0 <= i < pieces.len() ==> dash_free(#[trigger] pieces[i]),
    ensures
        forall|i: int| 0 <= i < nonempty_only(pieces).len() ==> {
            &&& dash_free(#[trigger] nonempty_only(pieces)[i])
            &&& nonempty_only(pieces)[i].len() > 0
        },
    decreases pieces.len(),
{
    reveal_with_fuel(Seq::<_>::filter, 1);
    if pieces.len() > 0 {
        let rest = pieces.drop_last();
        assert forall|i: int| 0 <= i < rest.len() implies dash_free(#[trigger] rest[i]) by {
            assert(rest[i] == pieces[i]);
        }
        lemma_filter_nonempty_dash_free(rest);
        let f = nonempty_only(pieces);
        let fr = nonempty_only(rest);
        assert(dash_free(pieces[pieces.len() - 1]));
        if pieces.last().len() > 0 {
            assert(f == fr.push(pieces.last()));
        } else {
            assert(f == fr);
        }
        assert forall|i: int| 0 <= i < f.len() implies dash_free(#[trigger] f[i]) && f[i].len() > 0 by {
            if i < fr.len() {
                assert(f[i] == fr[i]);
            }
        }
    }
}

proof fn lemma_join_slug_shaped(pieces: Seq<Seq<char>>)
    requires
        forall|i: int| 0 <= i < pieces.len() ==> dash_free(#[trigger] pieces[i]) && pieces[i].len() > 0,
    ensures
        is_slug_shaped(join_with(pieces, seq!['-'])),
        pieces.len() > 0 ==> join_with(pieces, seq!['-']).len() > 0,
    decreases pieces.len(),
{
    if pieces.len() == 1 {
        let p = pieces[0];
        assert(dash_free(p) && p.len() > 0);
        assert(p[p.len() - 1] != '-');
    } else if pieces.len() > 1 {
        let rest = pieces.drop_last();
        assert forall|i: int| 0 <= i < rest.len() implies dash_free(#[trigger] rest[i]) && rest[i].len() > 0 by {
            assert(rest[i] == pieces[i]);
        }
        lemma_join_slug_shaped(rest);
        let a = join_with(rest, seq!['-']);
        let b = pieces.last();
        assert(dash_free(pieces[pieces.len() - 1]) && pieces[pieces.len() - 1].len() > 0);
        let t = join_with(pieces, seq!['-']);
        assert(t == a + seq!['-'] + b);
        assert(t[0] == a[0]);
        assert(t.last() == b[b.len() - 1]);
        assert forall|k: int| 0 <= k < t.len() - 1 && #[trigger] t[k] == '-' implies t[k + 1] != '-' by {
            if k < a.len() - 1 {
                assert(t[k] == a[k] && t[k + 1] == a[k + 1]);
            } else if k == a.len() - 1 {
                assert(t[k] == a.last());
            } else if k == a.len() {
                assert(t[k + 1] == b[0]);
            } else {
                assert(t[k] == b[k - a.len() - 1]);
            }
        }
    }
}

/// A slug never starts or ends with a dash, and never has two dashes in a row.
pub proof fn lemma_slug_shape(s: Seq<char>)
    ensures
        is_slug_shaped(slug_of(s)),
{
    let mapped = slug_mapped(s);
    lemma_split_dash_free(mapped);
    let pieces = split_by(mapped, separator(Some('-')));
    lemma_filter_nonempty_dash_free(pieces);
    lemma_join_slug_shaped(nonempty_only(pieces));
}

/// `c` stands for itself in a slug.
pub open spec fn slug_fixed(c: char) -> bool {
    slug_char(c) == c
}

/// Every character a slug is made of stands for itself in a slug.
proof fn lemma_slug_char_fixed(c: char)
    ensures
        slug_fixed(slug_char(c)),
{
    if is_alphanumeric(c) && 'A' <= c <= 'Z' {
        let x = ascii_lower(c);
        assert('a' <= x <= 'z');
    }
}

/// Each piece of a split holds only characters of the split sequence.
proof fn lemma_split_keeps_chars(s: Seq<char>, is_sep: spec_fn(char) -> bool, pred: spec_fn(char) -> bool)
    requires
        forall|k: int| 0 <= k < s.len() ==> pred(#[trigger] s[k]),
    ensures
        forall|i: int, k: int| 0 <= i < split_by(s, is_sep).len() && 0 <= k < split_by(s, is_sep)[i].len()
            ==> pred(#[trigger] split_by(s, is_sep)[i][k]),
    decreases s.len(),
{
    if s.len() > 0 {
        let rest = split_by(s.drop_last(), is_sep);
        assert forall|k: int| 0 <= k < s.drop_last().len() implies pred(#[trigger] s.drop_last()[k]) by {
            assert(s.drop_last()[k] == s[k]);
        }
        lemma_split_keeps_chars(s.drop_last(), is_sep, pred);
        crate::text::lemma_split_nonempty(s.drop_last(), is_sep);
        let all = split_by(s, is_sep);
        assert(pred(s[s.len() - 1]));
        assert forall|i: int, k: int| 0 <= i < all.len() && 0 <= k < all[i].len() implies pred(#[trigger] all[i][k]) by {
            if i < rest.len() - 1 {
                assert(all[i] == rest[i]);
            } else if i == rest.len() - 1 && !is_sep(s.last()) {
                let p = rest.last().push(s.last());
                assert(all[i] == p);
                if k < p.len() - 1 {
                    assert(p[k] == rest[i][k]);
                }
            } else if i == rest.len() - 1 {
                assert(all[i] == rest[i]);
            } else {
                assert(all[i] =~= Seq::<char>::empty());
            }
        }
    }
}

/// Dropping the empty pieces keeps every property that all pieces have.
proof fn lemma_nonempty_only_keeps(pieces: Seq<Seq<char>>, q: spec_fn(Seq<char>) -> bool)
    requires
        forall|i: int| 0 <= i < pieces.len() ==> q(#[trigger] pieces[i]),
    ensures
        forall|i: int| 0 <= i < nonempty_only(pieces).len()
            ==> q(#[trigger] nonempty_only(pieces)[i]) && nonempty_only(pieces)[i].len() > 0,
    decreases pieces.len(),
{
    reveal_with_fuel(Seq::<_>::filter, 1);
    if pieces.len() > 0 {
        let rest = pieces.drop_last();
        assert forall|i: int| 0 <= i < rest.len() implies q(#[trigger] rest[i]) by {
            assert(rest[i] == pieces[i]);
        }
        lemma_nonempty_only_keeps(rest, q);
        let f = nonempty_only(pieces);
        let fr = nonempty_only(rest);
        assert(q(pieces[pieces.len() - 1]));
        if pieces.last().len() > 0 {
            assert(f == fr.push(pieces.last()));
        } else {
            assert(f == fr);
        }
        assert forall|i: int| 0 <= i < f.len() implies q(#[trigger] f[i]) && f[i].len() > 0 by {
            if i < fr.len() {
                assert(f[i] == fr[i]);
            }
        }
    }
}

/// Dropping the empty pieces changes nothing where no piece is empty.
proof fn lemma_nonempty_only_id(pieces: Seq<Seq<char>>)
    requires
        forall|i: int| 0 <= i < pieces.len() ==> (#[trigger] pieces[i]).len() > 0,
    ensures
        nonempty_only(pieces) == pieces,
    decreases pieces.len(),
{
    reveal_with_fuel(Seq::<_>::filter, 1);
    if pieces.len() > 0 {
        let rest = pieces.drop_last();
        assert forall|i: int| 0 <= i < rest.len() implies (#[trigger] rest[i]).len() > 0 by {
            assert(rest[i] == pieces[i]);
        }
        lemma_nonempty_only_id(rest);
        assert(pieces.last().len() > 0);
        assert(rest.push(pieces.last()) =~= pieces);
    }
}

/// A joined sequence holds only characters of its pieces and of the separator.
proof fn lemma_join_keeps_chars(pieces: Seq<Seq<char>>, sep: Seq<char>, pred: spec_fn(char) -> bool)
    requires
        forall|i: int, k: int| 0 <= i < pieces.len() && 0 <= k < pieces[i].len() ==> pred(#[trigger] pieces[i][k]),
        forall|k: int| 0 <= k < sep.len() ==> pred(#[trigger] sep[k]),
    ensures
        forall|k: int| 0 <= k < join_with(pieces, sep).len() ==> pred(#[trigger] join_with(pieces, sep)[k]),
    decreases pieces.len(),
{
    if pieces.len() == 1 {
        assert forall|k: int| 0 <= k < pieces[0].len() implies pred(#[trigger] pieces[0][k]) by {}
    } else if pieces.len() > 1 {
        let rest = pieces.drop_last();
        assert forall|i: int, k: int| 0 <= i < rest.len() && 0 <= k < rest[i].len() implies pred(#[trigger] rest[i][k]) by {
            assert(rest[i] == pieces[i]);
        }
        lemma_join_keeps_chars(rest, sep, pred);
        let a = join_with(rest, sep);
        let b = pieces.last();
        let t = join_with(pieces, sep);
        assert(t == a + sep + b);
        assert forall|k: int| 0 <= k < t.len() implies pred(#[trigger] t[k]) by {
            if k < a.len() {
                assert(t[k] == a[k]);
            } else if k < a.len() + sep.len() {
                assert(t[k] == sep[k - a.len()]);
            } else {
                assert(t[k] == b[k - a.len() - sep.len()]);
                assert(pred(pieces[pieces.len() - 1][k - a.len() - sep.len()]));
            }
        }
    }
}

/// Appending characters that are not separators extends the last piece.
proof fn lemma_split_append_plain(x: Seq<char>, b: Seq<char>, is_sep: spec_fn(char) -> bool)
    requires
        forall|k: int| 0 <= k < b.len() ==> !is_sep(#[trigger] b[k]),
    ensures
        split_by(x + b, is_sep) == split_by(x, is_sep).update(
            split_by(x, is_sep).len() - 1,
            split_by(x, is_sep).last() + b,
        ),
    decreases b.len(),
{
    crate::text::lemma_split_nonempty(x, is_sep);
    let sx = split_by(x, is_sep);
    if b.len() == 0 {
        assert(x + b =~= x);
        assert(sx.last() + b =~= sx.last());
        assert(sx.update(sx.len() - 1, sx.last() + b) =~= sx);
    } else {
        let b2 = b.drop_last();
        assert forall|k: int| 0 <= k < b2.len() implies !is_sep(#[trigger] b2[k]) by {
            assert(b2[k] == b[k]);
        }
        lemma_split_append_plain(x, b2, is_sep);
        assert((x + b).drop_last() =~= x + b2);
        assert((x + b).last() == b[b.len() - 1]);
        assert(!is_sep(b[b.len() - 1]));
        let s2 = split_by(x + b2, is_sep);
        assert(s2 == sx.update(sx.len() - 1, sx.last() + b2));
        assert((sx.last() + b2).push(b.last()) =~= sx.last() + b);
        assert(s2.update(s2.len() - 1, s2.last().push(b.last())) =~= sx.update(sx.len() - 1, sx.last() + b));
    }
}

/// Splitting pieces joined by dashes at the dashes gives the pieces back.
pub(crate) proof fn lemma_split_join(pieces: Seq<Seq<char>>)
    requires
        pieces.len() > 0,
        forall|i: int| 0 <= i < pieces.len() ==> dash_free(#[trigger] pieces[i]),
    ensures
        split_by(join_with(pieces, seq!['-']), separator(Some('-'))) == pieces,
    decreases pieces.len(),
{
    let sep = separator(Some('-'));
    let last = pieces.last();
    assert(dash_free(pieces[pieces.len() - 1]));
    assert forall|k: int| 0 <= k < last.len() implies !sep(#[trigger] last[k]) by {
        assert(last[k] == pieces[pieces.len() - 1][k]);
    }
    if pieces.len() == 1 {
        let e = Seq::<char>::empty();
        lemma_split_append_plain(e, last, sep);
        assert(e + last =~= last);
        assert(split_by(e, sep) =~= seq![e]);
        assert(split_by(e, sep).update(0, e + last) =~= pieces);
    } else {
        let rest = pieces.drop_last();
        assert forall|i: int| 0 <= i < rest.len() implies dash_free(#[trigger] rest[i]) by {
            assert(rest[i] == pieces[i]);
        }
        lemma_split_join(rest);
        let a = join_with(rest, seq!['-']);
        let x = a.push('-');
        assert(a + seq!['-'] + last =~= x + last);
        assert(x.drop_last() =~= a);
        assert(split_by(x, sep) == split_by(a, sep).push(Seq::empty()));
        lemma_split_append_plain(x, last, sep);
        let e = Seq::<char>::empty();
        assert(e + last =~= last);
        assert(split_by(x, sep).update(split_by(x, sep).len() - 1, split_by(x, sep).last() + last) =~= pieces);
    }
}

/// A slug is its own slug: `slugify` changes nothing in a slug, and a slug has
/// no ASCII capital letter.
pub proof fn lemma_slug_idempotent(s: Seq<char>)
    ensures
        slug_of(slug_of(s)) == slug_of(s),
        forall|k: int| 0 <= k < slug_of(s).len() ==> !('A' <= #[trigger] slug_of(s)[k] <= 'Z'),
{
    let mapped = slug_mapped(s);
    let fixed = |c: char| slug_fixed(c);
    assert forall|k: int| 0 <= k < mapped.len() implies fixed(#[trigger] mapped[k]) by {
        lemma_slug_char_fixed(s[k]);
    }
    let sep = separator(Some('-'));
    let pieces = split_by(mapped, sep);
    lemma_split_keeps_chars(mapped, sep, fixed);
    lemma_split_dash_free(mapped);
    let q = |p: Seq<char>| dash_free(p) && forall|k: int| 0 <= k < p.len() ==> fixed(#[trigger] p[k]);
    assert forall|i: int| 0 <= i < pieces.len() implies q(#[trigger] pieces[i]) by {
        assert forall|k: int| 0 <= k < pieces[i].len() implies fixed(#[trigger] pieces[i][k]) by {}
    }
    lemma_nonempty_only_keeps(pieces, q);
    let kept = nonempty_only(pieces);
    let t = join_with(kept, seq!['-']);
    assert(t == slug_of(s));
    assert forall|i: int, k: int| 0 <= i < kept.len() && 0 <= k < kept[i].len() implies fixed(#[trigger] kept[i][k]) by {
        assert(q(kept[i]));
    }
    assert forall|k: int| 0 <= k < seq!['-'].len() implies fixed(#[trigger] seq!['-'][k]) by {
        assert(seq!['-'][k] == '-');
    }
    lemma_join_keeps_chars(kept, seq!['-'], fixed);
    assert forall|k: int| 0 <= k < t.len() implies !('A' <= #[trigger] t[k] <= 'Z') by {
        assert(fixed(t[k]));
    }
    let tm = slug_mapped(t);
    assert forall|k: int| 0 <= k < t.len() implies #[trigger] tm[k] == t[k] by {
        assert(fixed(t[k]));
    }
    assert(tm =~= t);
    if kept.len() == 0 {
        assert(t =~= Seq::<char>::empty());
        let e = Seq::<char>::empty();
        assert(split_by(t, sep) =~= seq![e]);
        reveal_with_fuel(Seq::<_>::filter, 2);
        assert(seq![e].drop_last() =~= Seq::<Seq<char>>::empty());
        assert(nonempty_only(seq![e]) =~= Seq::<Seq<char>>::empty());
    } else {
        assert forall|i: int| 0 <= i < kept.len() implies dash_free(#[trigger] kept[i]) by {
            assert(q(kept[i]));
        }
        lemma_split_join(kept);
        assert forall|i: int| 0 <= i < kept.len() implies (#[trigger] kept[i]).len() > 0 by {}
        lemma_nonempty_only_id(kept);
    }
}

/// A URL- and file-name-friendly form of `name`.
pub fn slugify(name: &str) -> (r: String)
    ensures
        r@ == slug_of(name@),
{
    let chars = chars_of(name);
    let mut mapped: Vec<char> = Vec::new();
    let mut i: usize = 0;
    while i < chars.len()
        invariant
            i <= chars@.len(),
            chars@ == name@,
            mapped@ == slug_mapped(chars@.take(i as int)),
        decreases chars@.len() - i,
    {
        let c = chars[i];
        let m = if char_is_alphanumeric(c) {
            to_ascii_lower(c)
        } else {
            '-'
        };
        mapped.push(m);
        assert(slug_mapped(chars@.take(i + 1)) =~= slug_mapped(chars@.take(i as int)).push(m));
        i = i + 1;
    }
    assert(chars@.take(chars@.len() as int) =~= chars@);
    let pieces = split_chars(&mapped, Some('-'));
    let kept = nonempty_pieces(&pieces);
    let mut dash: Vec<char> = Vec::new();
    dash.push('-');
    assert(dash@ =~= seq!['-']);
    let joined_chars = join_chars(&kept, &dash);
    string_of(&joined_chars)
}

/// What `escape_html` puts in place of `c`.
pub open spec fn escape_char(c: char) -> Seq<char> {
    if c == '<' {
        "&lt;"@
    } else if c == '>' {
        "&gt;"@
    } else if c == '&' {
        "&amp;"@
    } else if c == '"' {
        "&quot;"@
    } else if c == '\'' {
        "&#x27;"@
    } else {
        seq![c]
    }
}

/// `s` with each character replaced by its escape.
pub open spec fn escaped(s: Seq<char>) -> Seq<char>
    decreases s.len(),
{
    if s.len() == 0 {
        Seq::empty()
    } else {
        escaped(s.drop_last()) + escape_char(s.last())
    }
}

/// `c` is one of the characters that HTML markup gives a meaning to, other than `&`.
pub open spec fn is_markup_char(c: char) -> bool {
    c == '<' || c == '>' || c == '"' || c == '\''
}

/// No escaped text holds `<`, `>`, `"` or `'`.
pub proof fn lemma_escaped_has_no_markup(s: Seq<char>)
    ensures
        forall|k: int| 0 <= k < escaped(s).len() ==> !is_markup_char(#[trigger] escaped(s)[k]),
    decreases s.len(),
{
    if s.len() > 0 {
        lemma_escaped_has_no_markup(s.drop_last());
        reveal_strlit("&lt;");
        reveal_strlit("&gt;");
        reveal_strlit("&amp;");
        reveal_strlit("&quot;");
        reveal_strlit("&#x27;");
        let prev = escaped(s.drop_last());
        let e = escape_char(s.last());
        assert forall|k: int| 0 <= k < escaped(s).len() implies !is_markup_char(#[trigger] escaped(s)[k]) by {
            if k < prev.len() {
                assert(escaped(s)[k] == prev[k]);
            } else {
                assert(escaped(s)[k] == e[k - prev.len()]);
            }
        }
    }
}

/// `s` made safe to stand in HTML text and attribute values.
pub fn escape_html(s: &str) -> (r: String)
    ensures
        r@ == escaped(s@),
{
    let chars = chars_of(s);
    let mut out: Vec<char> = Vec::new();
    let mut i: usize = 0;
    while i < chars.len()
        invariant
            i <= chars@.len(),
            chars@ == s@,
            out@ == escaped(chars@.take(i as int)),
        decreases chars@.len() - i,
    {
        let c = chars[i];
        if c == '<' {
            append_chars(&mut out, &chars_of("&lt;"));
        } else if c == '>' {
            append_chars(&mut out, &chars_of("&gt;"));
        } else if c == '&' {
            append_chars(&mut out, &chars_of("&amp;"));
        } else if c == '"' {
            append_chars(&mut out, &chars_of("&quot;"));
        } else if c == '\'' {
            append_chars(&mut out, &chars_of("&#x27;"));
        } else {
            out.push(c);
        }
        assert(chars@.take(i + 1).drop_last() =~= chars@.take(i as int));
        i = i + 1;
    }
    assert(chars@.take(chars@.len() as int) =~= chars@);
    string_of(&out)
}

/// The CSS class and the label of a project status.
pub open spec fn status_labels(status: ProjectStatus) -> (Seq<char>, Seq<char>) {
    match status {
        ProjectStatus::NotStarted => ("not-started"@, "Not Started"@),
        ProjectStatus::InProgress => ("in-progress"@, "In Progress"@),
        ProjectStatus::UnderReview => ("under-review"@, "Under Review"@),
        ProjectStatus::Complete => ("complete"@, "Complete"@),
    }
}

/// The CSS class and the label of a difficulty.
pub open spec fn difficulty_labels(difficulty: Difficulty) -> (Seq<char>, Seq<char>) {
    match difficulty {
        Difficulty::Beginner => ("beginner"@, "Beginner"@),
        Difficulty::Intermediate => ("intermediate"@, "Intermediate"@),
        Difficulty::Advanced => ("advanced"@, "Advanced"@),
    }
}

/// The CSS class and the label shown for a project status.
pub fn get_status_labels(status: &ProjectStatus) -> (r: (&'static str, &'static str))
    ensures
        (r.0@, r.1@) == status_labels(*status),
{
    match status {
        ProjectStatus::NotStarted => ("not-started", "Not Started"),
        ProjectStatus::InProgress => ("in-progress", "In Progress"),
        ProjectStatus::UnderReview => ("under-review", "Under Review"),
        ProjectStatus::Complete => ("complete", "Complete"),
    }
}

/// The CSS class and the label shown for a difficulty.
pub fn get_difficulty_labels(diff: &Difficulty) -> (r: (&'static str, &'static str))
    ensures
        (r.0@, r.1@) == difficulty_labels(*diff),
{
    match diff {
        Difficulty::Beginner => ("beginner", "Beginner"),
        Difficulty::Intermediate => ("intermediate", "Intermediate"),
        Difficulty::Advanced => ("advanced", "Advanced"),
    }
}

/// `p` with a leading `~` standing for the home directory `home`, where that is known.
pub open spec fn resolved_path(p: Seq<char>, home: Option<Seq<char>>) -> Seq<char> {
    if p.len() >= 2 && p[0] == '~' && p[1] == '/' {
        match home {
            Some(h) => joined(h, p.skip(2)),
            None => p,
        }
    } else if p == seq!['~'] {
        match home {
            Some(h) => h,
            None => p,
        }
    } else {
        p
    }
}

/// Expands `~` and `~/...` in a project path against the home directory
/// `home` (the value of `HOME`, if set).
pub fn resolve_path(p: &str, home: Option<&str>) -> (r: String)
    ensures
        r@ == resolved_path(p@, opt_chars(home)),
{
    let chars = chars_of(p);
    if chars.len() >= 2 && chars[0] == '~' && chars[1] == '/' {
        if let Some(h) = home {
            let mut rest: Vec<char> = Vec::new();
            let mut i: usize = 2;
            while i < chars.len()
                invariant
                    2 <= i <= chars@.len(),
                    rest@ == chars@.subrange(2, i as int),
                decreases chars@.len() - i,
            {
                rest.push(chars[i]);
                assert(chars@.subrange(2, i + 1) =~= chars@.subrange(2, i as int).push(chars@[i as int]));
                i = i + 1;
            }
            let stripped = string_of(&rest);
            assert(stripped@ =~= p@.skip(2));
            return join_path(h, stripped.as_str());
        }
    } else if chars.len() == 1 && chars[0] == '~' {
        if let Some(h) = home {
            assert(p@ =~= seq!['~']);
            return String::from_str(h);
        }
    }
    String::from_str(p)
}

/// What the Markdown parser reports, as far as the description of a project needs it.
#[derive(Debug)]
pub enum MarkdownEvent {
    /// A paragraph begins.
    ParagraphStart,
    /// A paragraph ends.
    ParagraphEnd,
    /// A text node.
    Text(String),
    /// An inline code node.
    Code(String),
    /// A soft line break.
    SoftBreak,
    /// A hard line break.
    HardBreak,
    /// Any other event.
    Other,
}

impl MarkdownEvent {
    /// Whether this event starts a paragraph.
    pub fn is_paragraph_start(&self) -> (r: bool)
        ensures
            r == (*self is ParagraphStart),
    {
        match self {
            MarkdownEvent::ParagraphStart => true,
            _ => false,
        }
    }

    /// Whether this event ends a paragraph.
    pub fn is_paragraph_end(&self) -> (r: bool)
        ensures
            r == (*self is ParagraphEnd),
    {
        match self {
            MarkdownEvent::ParagraphEnd => true,
            _ => false,
        }
    }
}

/// The events that `pulldown_cmark::Parser::new` yields for the Markdown text `text`.
pub uninterp spec fn markdown_events(text: Seq<char>) -> Seq<MarkdownEvent>;

/// `pulldown_cmark::Parser::new(markdown)` with default options, each event
/// mapped to the `MarkdownEvent` of the same kind (paragraph starts and ends,
/// text and code with their text, breaks; every other event to `Other`). The
/// sequence is named: it depends on the text alone.
#[verifier::external_body]
fn parse_markdown_events(markdown: &str) -> (r: Vec<MarkdownEvent>)
    ensures
        r@ == markdown_events(markdown@),
{
    Parser::new(markdown).map(|e| match e {
        Event::Start(Tag::Paragraph) => MarkdownEvent::ParagraphStart,
        Event::End(TagEnd::Paragraph) => MarkdownEvent::ParagraphEnd,
        Event::Text(t) => MarkdownEvent::Text(t.to_string()),
        Event::Code(t) => MarkdownEvent::Code(t.to_string()),
        Event::SoftBreak => MarkdownEvent::SoftBreak,
        Event::HardBreak => MarkdownEvent::HardBreak,
        _ => MarkdownEvent::Other,
    }).collect()
}

/// The text that event `e` adds to a paragraph.
pub open spec fn contribution(e: MarkdownEvent) -> Seq<char> {
    match e {
        MarkdownEvent::Text(t) => t@,
        MarkdownEvent::Code(t) => t@,
        MarkdownEvent::SoftBreak => seq!['\n'],
        MarkdownEvent::HardBreak => seq!['\n'],
        _ => Seq::empty(),
    }
}

/// The text of the events up to the first paragraph end.
pub open spec fn paragraph_body(events: Seq<MarkdownEvent>) -> Seq<char>
    decreases events.len(),
{
    if events.len() == 0 || events[0] is ParagraphEnd {
        Seq::empty()
    } else {
        contribution(events[0]) + paragraph_body(events.drop_first())
    }
}

/// The text of the first paragraph: the events after the first paragraph
/// start, up to the next paragraph end; empty when no paragraph starts.
pub open spec fn first_paragraph_of(events: Seq<MarkdownEvent>) -> Seq<char>
    decreases events.len(),
{
    if events.len() == 0 {
        Seq::empty()
    } else if events[0] is ParagraphStart {
        paragraph_body(events.drop_first())
    } else {
        first_paragraph_of(events.drop_first())
    }
}

/// Replacing an event that is neither a paragraph start nor a paragraph end
/// by another such event that adds the same text leaves a paragraph body unchanged.
proof fn lemma_body_replace(events: Seq<MarkdownEvent>, i: int, e: MarkdownEvent)
    requires
        0 <= i < events.len(),
        !(events[i] is ParagraphStart) && !(events[i] is ParagraphEnd),
        !(e is ParagraphStart) && !(e is ParagraphEnd),
        contribution(e) == contribution(events[i]),
    ensures
        paragraph_body(events.update(i, e)) == paragraph_body(events),
    decreases events.len(),
{
    let u = events.update(i, e);
    if i > 0 {
        if !(events[0] is ParagraphEnd) {
            assert(u.drop_first() =~= events.drop_first().update(i - 1, e));
            lemma_body_replace(events.drop_first(), i - 1, e);
        }
    } else {
        assert(u.drop_first() =~= events.drop_first());
    }
}

/// The same replacement leaves the first paragraph unchanged.
proof fn lemma_first_paragraph_replace(events: Seq<MarkdownEvent>, i: int, e: MarkdownEvent)
    requires
        0 <= i < events.len(),
        !(events[i] is ParagraphStart) && !(events[i] is ParagraphEnd),
        !(e is ParagraphStart) && !(e is ParagraphEnd),
        contribution(e) == contribution(events[i]),
    ensures
        first_paragraph_of(events.update(i, e)) == first_paragraph_of(events),
    decreases events.len(),
{
    let u = events.update(i, e);
    if i > 0 {
        assert(u.drop_first() =~= events.drop_first().update(i - 1, e));
        if events[0] is ParagraphStart {
            lemma_body_replace(events.drop_first(), i - 1, e);
        } else {
            lemma_first_paragraph_replace(events.drop_first(), i - 1, e);
        }
    } else {
        assert(u.drop_first() =~= events.drop_first());
        assert(!(u[0] is ParagraphStart));
    }
}

/// Inline code counts as text: turning a `Code(t)` event into `Text(t)`, or back,
/// never changes the first paragraph.
pub proof fn lemma_code_reads_as_text(events: Seq<MarkdownEvent>, i: int, t: String)
    requires
        0 <= i < events.len(),
        events[i] == MarkdownEvent::Code(t),
    ensures
        first_paragraph_of(events.update(i, MarkdownEvent::Text(t))) == first_paragraph_of(events),
{
    lemma_first_paragraph_replace(events, i, MarkdownEvent::Text(t));
}

/// The first paragraph of `text, code, text` is the three strings one after another.
pub proof fn lemma_text_code_text(a: String, b: String, c: String)
    ensures
        first_paragraph_of(seq![
            MarkdownEvent::ParagraphStart,
            MarkdownEvent::Text(a),
            MarkdownEvent::Code(b),
            MarkdownEvent::Text(c),
            MarkdownEvent::ParagraphEnd,
        ]) == a@ + b@ + c@,
{
    let ev = seq![
        MarkdownEvent::ParagraphStart,
        MarkdownEvent::Text(a),
        MarkdownEvent::Code(b),
        MarkdownEvent::Text(c),
        MarkdownEvent::ParagraphEnd,
    ];
    let b1 = ev.drop_first();
    let b2 = b1.drop_first();
    let b3 = b2.drop_first();
    let b4 = b3.drop_first();
    assert(b4 =~= seq![MarkdownEvent::ParagraphEnd]);
    assert(paragraph_body(b4) == Seq::<char>::empty());
    assert(paragraph_body(b3) == c@ + Seq::<char>::empty());
    assert(paragraph_body(b2) == b@ + paragraph_body(b3));
    assert(paragraph_body(b1) == a@ + paragraph_body(b2));
    assert(first_paragraph_of(ev) == paragraph_body(b1));
    assert(a@ + (b@ + (c@ + Seq::<char>::empty())) =~= a@ + b@ + c@);
}

/// The text of the first paragraph among `events`.
pub fn first_paragraph_text(events: &Vec<MarkdownEvent>) -> (r: Vec<char>)
    ensures
        r@ == first_paragraph_of(events@),
{
    let n = events.len();
    let mut i: usize = 0;
    assert(events@.skip(0) =~= events@);
    while i < n && !events[i].is_paragraph_start()
        invariant
            i <= n == events@.len(),
            first_paragraph_of(events@) == first_paragraph_of(events@.skip(i as int)),
        decreases n - i,
    {
        assert(events@.skip(i as int).drop_first() =~= events@.skip(i + 1));
        i = i + 1;
    }
    let mut text: Vec<char> = Vec::new();
    if i == n {
        return text;
    }
    assert(events@.skip(i as int).drop_first() =~= events@.skip(i + 1));
    let mut j: usize = i + 1;
    while j < n && !events[j].is_paragraph_end()
        invariant
            i < j <= n == events@.len(),
            text@ + paragraph_body(events@.skip(j as int)) == first_paragraph_of(events@),
        decreases n - j,
    {
        assert(events@.skip(j as int).drop_first() =~= events@.skip(j + 1));
        assert(events@.skip(j as int)[0] == events@[j as int]);
        let ghost before = text@;
        match &events[j] {
            MarkdownEvent::Text(t) => append_chars(&mut text, &chars_of(t.as_str())),
            MarkdownEvent::Code(t) => append_chars(&mut text, &chars_of(t.as_str())),
            MarkdownEvent::SoftBreak => text.push('\n'),
            MarkdownEvent::HardBreak => text.push('\n'),
            _ => {},
        }
        assert(text@ =~= before + contribution(events@[j as int]));
        assert(text@ + paragraph_body(events@.skip(j + 1)) =~= before + paragraph_body(events@.skip(j as int)));
        j = j + 1;
    }
    assert(text@ + paragraph_body(events@.skip(j as int)) =~= text@);
    text
}

/// The text of the first paragraph of a Markdown document, trimmed; empty when
/// there is no paragraph.
pub fn extract_first_paragraph(markdown: &str) -> (r: String)
    ensures
        r@ == trimmed(first_paragraph_of(markdown_events(markdown@))),
{
    let events = parse_markdown_events(markdown);
    let text = first_paragraph_text(&events);
    let s = string_of(&text);
    trim(s.as_str())
}

} // verus!
