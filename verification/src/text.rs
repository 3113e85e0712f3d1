use vstd::prelude::*;

verus! {

/// Whether `c` has the Unicode `White_Space` property, as `char::is_whitespace`
/// decides it: tab, line feed, vertical tab, form feed, carriage return, space,
/// next line, no-break space, ogham space mark, the spaces U+2000 to U+200A,
/// line and paragraph separators, narrow no-break space, medium mathematical
/// space and ideographic space.
pub open spec fn is_whitespace(c: char) -> bool {
    ||| '\u{9}' <= c <= '\u{d}'
    ||| c == ' '
    ||| c == '\u{85}'
    ||| c == '\u{a0}'
    ||| c == '\u{1680}'
    ||| '\u{2000}' <= c <= '\u{200a}'
    ||| c == '\u{2028}'
    ||| c == '\u{2029}'
    ||| c == '\u{202f}'
    ||| c == '\u{205f}'
    ||| c == '\u{3000}'
}

/// `char::is_whitespace`: true exactly for the characters with the Unicode
/// `White_Space` property (PropList.txt), which `is_whitespace` lists.
#[verifier::external_body]
pub(crate) fn char_is_whitespace(c: char) -> (r: bool)
    ensures
        r == is_whitespace(c),
{
    c.is_whitespace()
}

/// Builds a `String` from its characters (`FromIterator<char> for String`);
/// the contract claims the string holds exactly those characters, in order.
#[verifier::external_body]
pub(crate) fn string_of(chars: &Vec<char>) -> (s: String)
    ensures
        s@ == chars@,
{
    chars.iter().collect()
}

/// The characters of `s`, in order.
pub fn chars_of(s: &str) -> (v: Vec<char>)
    ensures
        v@ == s@,
{
    let mut v: Vec<char> = Vec::new();
    for c in it: s.chars()
        invariant
            v@ == it.seq().take(it.index() as int),
    {
        v.push(c);
    }
    v
}

/// `s` without its leading whitespace.
pub open spec fn trim_start(s: Seq<char>) -> Seq<char>
    decreases s.len(),
{
    if s.len() > 0 && is_whitespace(s[0]) {
        trim_start(s.drop_first())
    } else {
        s
    }
}

/// `s` without its trailing whitespace.
pub open spec fn trim_end(s: Seq<char>) -> Seq<char>
    decreases s.len(),
{
    if s.len() > 0 && is_whitespace(s.last()) {
        trim_end(s.drop_last())
    } else {
        s
    }
}

/// `s` without leading and trailing whitespace, as `str::trim` returns it.
pub open spec fn trimmed(s: Seq<char>) -> Seq<char> {
    trim_end(trim_start(s))
}

proof fn lemma_trim_start_skip(s: Seq<char>, i: int)
    requires
        0 <= i < s.len(),
        is_whitespace(s[i]),
    ensures
        trim_start(s.subrange(i, s.len() as int)) == trim_start(s.subrange(i + 1, s.len() as int)),
{
    assert(s.subrange(i, s.len() as int).drop_first() =~= s.subrange(i + 1, s.len() as int));
}

proof fn lemma_trim_end_skip(s: Seq<char>, i: int, j: int)
    requires
        0 <= i < j <= s.len(),
        is_whitespace(s[j - 1]),
    ensures
        trim_end(s.subrange(i, j)) == trim_end(s.subrange(i, j - 1)),
{
    assert(s.subrange(i, j).drop_last() =~= s.subrange(i, j - 1));
}

/// Leading and trailing whitespace removed from `chars`: the bounds `(i, j)` of the part kept.
fn trim_bounds(chars: &Vec<char>) -> (b: (usize, usize))
    ensures
        b.0 <= b.1 <= chars@.len(),
        trimmed(chars@) == chars@.subrange(b.0 as int, b.1 as int),
{
    let n = chars.len();
    let mut i: usize = 0;
    assert(chars@.subrange(0, n as int) =~= chars@);
    while i < n && char_is_whitespace(chars[i])
        invariant
            i <= n,
            n == chars@.len(),
            trim_start(chars@) == trim_start(chars@.subrange(i as int, n as int)),
        decreases n - i,
    {
        proof {
            lemma_trim_start_skip(chars@, i as int);
        }
        i = i + 1;
    }
    assert(trim_start(chars@) == chars@.subrange(i as int, n as int));
    let mut j: usize = n;
    while j > i && char_is_whitespace(chars[j - 1])
        invariant
            i <= j <= n,
            n == chars@.len(),
            trimmed(chars@) == trim_end(chars@.subrange(i as int, j as int)),
        decreases j,
    {
        proof {
            lemma_trim_end_skip(chars@, i as int, j as int);
        }
        j = j - 1;
    }
    (i, j)
}

proof fn lemma_trim_start_shape(s: Seq<char>)
    ensures
        exists|k: int| 0 <= k <= s.len() && trim_start(s) == s.subrange(k, s.len() as int),
        trim_start(s).len() == 0 || !is_whitespace(trim_start(s)[0]),
    decreases s.len(),
{
    if s.len() > 0 && is_whitespace(s[0]) {
        lemma_trim_start_shape(s.drop_first());
        let k = choose|k: int| 0 <= k <= s.drop_first().len() && trim_start(s.drop_first()) == s.drop_first().subrange(k, s.drop_first().len() as int);
        assert(s.drop_first().subrange(k, s.drop_first().len() as int) =~= s.subrange(k + 1, s.len() as int));
    } else {
        assert(s.subrange(0, s.len() as int) =~= s);
    }
}

proof fn lemma_trim_end_shape(s: Seq<char>)
    ensures
        exists|k: int| 0 <= k <= s.len() && trim_end(s) == s.subrange(0, k),
        trim_end(s).len() == 0 || !is_whitespace(trim_end(s).last()),
    decreases s.len(),
{
    if s.len() > 0 && is_whitespace(s.last()) {
        lemma_trim_end_shape(s.drop_last());
        let k = choose|k: int| 0 <= k <= s.drop_last().len() && trim_end(s.drop_last()) == s.drop_last().subrange(0, k);
        assert(s.drop_last().subrange(0, k) =~= s.subrange(0, k));
    } else {
        assert(s.subrange(0, s.len() as int) =~= s);
    }
}

/// A trimmed string is empty, or starts and ends with a character that is not whitespace.
pub proof fn lemma_trimmed_ends(s: Seq<char>)
    ensures
        trimmed(s).len() == 0 || (!is_whitespace(trimmed(s)[0]) && !is_whitespace(trimmed(s).last())),
{
    let t = trim_start(s);
    lemma_trim_start_shape(s);
    lemma_trim_end_shape(t);
    let k = choose|k: int| 0 <= k <= t.len() && trim_end(t) == t.subrange(0, k);
    if trimmed(s).len() > 0 {
        assert(trimmed(s)[0] == t[0]);
    }
}

/// Trimming is idempotent: trimming a trimmed string changes nothing.
pub proof fn lemma_trim_idempotent(s: Seq<char>)
    ensures
        trimmed(trimmed(s)) == trimmed(s),
{
    let t = trimmed(s);
    lemma_trimmed_ends(s);
    assert(trim_start(t) == t);
    assert(trim_end(t) == t);
}

/// `s` with leading and trailing whitespace removed (`str::trim`, owned).
pub fn trim(s: &str) -> (r: String)
    ensures
        r@ == trimmed(s@),
{
    let chars = chars_of(s);
    let (i, j) = trim_bounds(&chars);
    let mut kept: Vec<char> = Vec::new();
    let mut k: usize = i;
    while k < j
        invariant
            i <= k <= j <= chars@.len(),
            kept@ == chars@.subrange(i as int, k as int),
        decreases j - k,
    {
        kept.push(chars[k]);
        assert(chars@.subrange(i as int, k + 1) =~= chars@.subrange(i as int, k as int).push(chars@[k as int]));
        k = k + 1;
    }
    string_of(&kept)
}

/// What `str::to_lowercase` returns for a string with characters `s`.
pub uninterp spec fn lowercase(s: Seq<char>) -> Seq<char>;

/// `str::to_lowercase`: the Unicode lowercase mapping of the whole string.
/// The result is named, not described: it depends on `s` alone.
#[verifier::external_body]
pub(crate) fn to_lowercase(s: &str) -> (r: String)
    ensures
        r@ == lowercase(s@),
{
    s.to_lowercase()
}

/// Whether the character `c` outside ASCII is alphabetic or numeric in Unicode,
/// as `char::is_alphanumeric` decides it.
pub uninterp spec fn is_non_ascii_alphanumeric(c: char) -> bool;

/// Whether `c` is alphabetic or numeric in Unicode, as `char::is_alphanumeric`
/// decides it: among the ASCII characters exactly the letters and digits.
pub open spec fn is_alphanumeric(c: char) -> bool {
    if c <= '\u{7f}' {
        'a' <= c <= 'z' || 'A' <= c <= 'Z' || '0' <= c <= '9'
    } else {
        is_non_ascii_alphanumeric(c)
    }
}

/// `char::is_alphanumeric`: true exactly for the characters that are Unicode
/// `Alphabetic` or numeric (`Nd`, `Nl`, `No`). Among the ASCII characters these
/// are the letters and digits; beyond ASCII the answer is only named.
#[verifier::external_body]
pub(crate) fn char_is_alphanumeric(c: char) -> (r: bool)
    ensures
        r == is_alphanumeric(c),
        c > '\u{7f}' ==> r == is_non_ascii_alphanumeric(c),
{
    c.is_alphanumeric()
}

/// The key by which names are compared: trimmed, then lowercased.
pub open spec fn name_key(s: Seq<char>) -> Seq<char> {
    lowercase(trimmed(s))
}

/// `s.trim().to_lowercase()`.
pub fn normalized(s: &str) -> (r: String)
    ensures
        r@ == name_key(s@),
{
    let t = trim(s);
    to_lowercase(t.as_str())
}

/// Whether `c` occurs in `s`.
pub fn contains_char(s: &str, c: char) -> (r: bool)
    ensures
        r == s@.contains(c),
{
    let chars = chars_of(s);
    let mut i: usize = 0;
    while i < chars.len()
        invariant
            i <= chars@.len(),
            chars@ == s@,
            forall|k: int| 0 <= k < i ==> chars@[k] != c,
        decreases chars@.len() - i,
    {
        if chars[i] == c {
            return true;
        }
        i = i + 1;
    }
    false
}

/// The views of a sequence of character vectors.
pub open spec fn pieces_view(v: Seq<Vec<char>>) -> Seq<Seq<char>> {
    v.map_values(|p: Vec<char>| p@)
}

/// The separator test: the character `d` where one is given, whitespace otherwise.
pub open spec fn separator(sep: Option<char>) -> spec_fn(char) -> bool {
    |c: char| match sep {
        Some(d) => c == d,
        None => is_whitespace(c),
    }
}

/// `s` cut at every separator (which is dropped), empty pieces kept, as `str::split` cuts it.
pub open spec fn split_by(s: Seq<char>, is_sep: spec_fn(char) -> bool) -> Seq<Seq<char>>
    decreases s.len(),
{
    if s.len() == 0 {
        seq![Seq::empty()]
    } else {
        let rest = split_by(s.drop_last(), is_sep);
        if is_sep(s.last()) {
            rest.push(Seq::empty())
        } else {
            rest.update(rest.len() - 1, rest.last().push(s.last()))
        }
    }
}

/// A split has at least one piece.
pub proof fn lemma_split_nonempty(s: Seq<char>, is_sep: spec_fn(char) -> bool)
    ensures
        split_by(s, is_sep).len() >= 1,
    decreases s.len(),
{
    if s.len() > 0 {
        lemma_split_nonempty(s.drop_last(), is_sep);
    }
}

/// The pieces joined, with `sep` between each two, as `[_]::join` joins them.
pub open spec fn join_with(pieces: Seq<Seq<char>>, sep: Seq<char>) -> Seq<char>
    decreases pieces.len(),
{
    if pieces.len() == 0 {
        Seq::empty()
    } else if pieces.len() == 1 {
        pieces[0]
    } else {
        join_with(pieces.drop_last(), sep) + sep + pieces.last()
    }
}

/// Whether `c` is a separator for `sep` (see `separator`).
fn is_separator(c: char, sep: Option<char>) -> (r: bool)
    ensures
        r == separator(sep)(c),
{
    match sep {
        Some(d) => c == d,
        None => char_is_whitespace(c),
    }
}

/// `chars` cut at every separator for `sep`, empty pieces kept.
pub fn split_chars(chars: &Vec<char>, sep: Option<char>) -> (pieces: Vec<Vec<char>>)
    ensures
        pieces_view(pieces@) == split_by(chars@, separator(sep)),
{
    let mut done: Vec<Vec<char>> = Vec::new();
    let mut cur: Vec<char> = Vec::new();
    let mut i: usize = 0;
    assert(chars@.take(0) =~= Seq::<char>::empty());
    assert(pieces_view(done@).push(cur@) =~= split_by(chars@.take(0), separator(sep)));
    while i < chars.len()
        invariant
            i <= chars@.len(),
            pieces_view(done@).push(cur@) == split_by(chars@.take(i as int), separator(sep)),
        decreases chars@.len() - i,
    {
        let c = chars[i];
        let ghost before = chars@.take(i as int);
        assert(chars@.take(i + 1).drop_last() =~= before);
        assert(chars@.take(i + 1).last() == c);
        proof {
            lemma_split_nonempty(before, separator(sep));
        }
        if is_separator(c, sep) {
            let finished = cur;
            done.push(finished);
            cur = Vec::new();
            assert(pieces_view(done@).push(cur@) =~= split_by(before, separator(sep)).push(Seq::empty()));
        } else {
            cur.push(c);
            assert(pieces_view(done@).push(cur@) =~= split_by(before, separator(sep)).update(
                split_by(before, separator(sep)).len() - 1,
                split_by(before, separator(sep)).last().push(c),
            ));
        }
        i = i + 1;
    }
    assert(chars@.take(chars@.len() as int) =~= chars@);
    done.push(cur);
    assert(pieces_view(done@) =~= split_by(chars@, separator(sep)));
    done
}

/// The pieces joined with `sep` between each two.
pub fn join_chars(pieces: &Vec<Vec<char>>, sep: &Vec<char>) -> (r: Vec<char>)
    ensures
        r@ == join_with(pieces_view(pieces@), sep@),
{
    let mut out: Vec<char> = Vec::new();
    let mut k: usize = 0;
    while k < pieces.len()
        invariant
            k <= pieces@.len(),
            out@ == join_with(pieces_view(pieces@).take(k as int), sep@),
        decreases pieces@.len() - k,
    {
        let ghost before = out@;
        if k > 0 {
            append_chars(&mut out, sep);
        }
        append_chars(&mut out, &pieces[k]);
        proof {
            let all = pieces_view(pieces@);
            assert(all.take(k + 1).drop_last() =~= all.take(k as int));
            if k == 0 {
                assert(all.take(1) =~= seq![pieces@[0]@]);
            }
        }
        k = k + 1;
    }
    assert(pieces_view(pieces@).take(pieces@.len() as int) =~= pieces_view(pieces@));
    out
}

/// Appends the characters of `more` to `out`.
pub fn append_chars(out: &mut Vec<char>, more: &Vec<char>)
    ensures
        final(out)@ == old(out)@ + more@,
{
    let mut i: usize = 0;
    while i < more.len()
        invariant
            i <= more@.len(),
            out@ == old(out)@ + more@.take(i as int),
        decreases more@.len() - i,
    {
        out.push(more[i]);
        assert(more@.take(i + 1) =~= more@.take(i as int).push(more@[i as int]));
        i = i + 1;
    }
    assert(more@.take(more@.len() as int) =~= more@);
}

/// The pieces that are not empty, in order.
pub open spec fn nonempty_only(pieces: Seq<Seq<char>>) -> Seq<Seq<char>> {
    pieces.filter(|p: Seq<char>| p.len() > 0)
}

/// The pieces that are not empty, in order.
pub fn nonempty_pieces(pieces: &Vec<Vec<char>>) -> (r: Vec<Vec<char>>)
    ensures
        pieces_view(r@) == nonempty_only(pieces_view(pieces@)),
{
    let mut r: Vec<Vec<char>> = Vec::new();
    let mut k: usize = 0;
    let ghost all = pieces_view(pieces@);
    while k < pieces.len()
        invariant
            k <= pieces@.len(),
            all == pieces_view(pieces@),
            pieces_view(r@) == all.take(k as int).filter(|p: Seq<char>| p.len() > 0),
        decreases pieces@.len() - k,
    {
        assert(all.take(k + 1).drop_last() =~= all.take(k as int));
        reveal_with_fuel(Seq::<_>::filter, 1);
        if pieces[k].len() > 0 {
            let mut copy: Vec<char> = Vec::new();
            append_chars(&mut copy, &pieces[k]);
            r.push(copy);
            assert(pieces_view(r@) =~= all.take(k as int).filter(|p: Seq<char>| p.len() > 0).push(all[k as int]));
        }
        k = k + 1;
    }
    assert(all.take(pieces@.len() as int) =~= all);
    r
}

/// The views of a sequence of strings.
pub open spec fn strings_view(v: Seq<String>) -> Seq<Seq<char>> {
    v.map_values(|s: String| s@)
}

/// The characters of each string, in order.
pub fn chars_of_each(strings: &Vec<String>) -> (r: Vec<Vec<char>>)
    ensures
        pieces_view(r@) == strings_view(strings@),
{
    let ghost views = strings_view(strings@);
    let mut pieces: Vec<Vec<char>> = Vec::new();
    let mut i: usize = 0;
    while i < strings.len()
        invariant
            i <= strings@.len(),
            views == strings_view(strings@),
            pieces@.len() == i,
            pieces_view(pieces@) == views.take(i as int),
        decreases strings@.len() - i,
    {
        let piece = chars_of(strings[i].as_str());
        let ghost prev = pieces@;
        pieces.push(piece);
        assert forall|k: int| 0 <= k <= i implies pieces_view(pieces@)[k] == views.take(i + 1)[k] by {
            if k < i {
                assert(pieces@[k] == prev[k]);
                assert(pieces_view(prev)[k] == views.take(i as int)[k]);
            }
        }
        assert(pieces_view(pieces@) =~= views.take(i + 1));
        i = i + 1;
    }
    assert(views.take(strings@.len() as int) =~= views);
    pieces
}

/// The strings, one per line: joined with a newline between each two.
pub fn join_lines(strings: &Vec<String>) -> (r: Vec<char>)
    ensures
        r@ == join_with(strings_view(strings@), seq!['\n']),
{
    let pieces = chars_of_each(strings);
    let mut newline: Vec<char> = Vec::new();
    newline.push('\n');
    assert(newline@ =~= seq!['\n']);
    join_chars(&pieces, &newline)
}

} // verus!
