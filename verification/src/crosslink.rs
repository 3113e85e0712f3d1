use vstd::prelude::*;
use vstd::utf8::encode_utf8;

use crate::error::GuildError;
use crate::text::{
    chars_of, join_chars, join_with, lowercase, nonempty_only, nonempty_pieces, pieces_view,
    separator, split_by, split_chars, string_of, strings_view, join_lines, to_lowercase, trim,
    trimmed,
};

verus! {

/// What `char::to_uppercase` yields for `c`, collected into a string.
pub uninterp spec fn uppercase(c: char) -> Seq<char>;

/// `char::to_uppercase`, collected: the Unicode uppercase mapping of `c`
/// (one to three characters). The result is named, not described.
#[verifier::external_body]
fn char_to_uppercase(c: char) -> (r: Vec<char>)
    ensures
        r@ == uppercase(c),
{
    c.to_uppercase().collect()
}

/// `w` with its first character in upper case.
pub open spec fn capitalized(w: Seq<char>) -> Seq<char> {
    if w.len() == 0 {
        Seq::empty()
    } else {
        uppercase(w[0]) + w.drop_first()
    }
}

/// The title of a knowledge page with slug `slug`: the words between dashes,
/// each capitalised, joined by spaces.
pub open spec fn title_of(slug: Seq<char>) -> Seq<char> {
    join_with(titled_words(split_by(slug, separator(Some('-')))), seq![' '])
}

/// Each word capitalised.
pub open spec fn titled_words(words: Seq<Seq<char>>) -> Seq<Seq<char>> {
    words.map_values(|w: Seq<char>| capitalized(w))
}

/// `word` with its first character in upper case.
fn capitalize(word: &Vec<char>) -> (r: Vec<char>)
    ensures
        r@ == capitalized(word@),
{
    if word.len() == 0 {
        return Vec::new();
    }
    let mut out = char_to_uppercase(word[0]);
    let mut i: usize = 1;
    while i < word.len()
        invariant
            1 <= i <= word@.len(),
            out@ == uppercase(word@[0]) + word@.subrange(1, i as int),
        decreases word@.len() - i,
    {
        out.push(word[i]);
        assert(word@.subrange(1, i + 1) =~= word@.subrange(1, i as int).push(word@[i as int]));
        i = i + 1;
    }
    assert(word@.subrange(1, word@.len() as int) =~= word@.drop_first());
    out
}

/// A readable title for a knowledge page slug: `"getting-started"` becomes `"Getting Started"`.
pub fn slug_to_title(slug: &str) -> (r: String)
    ensures
        r@ == title_of(slug@),
{
    let chars = chars_of(slug);
    let words = split_chars(&chars, Some('-'));
    let ghost all = pieces_view(words@);
    let mut titled: Vec<Vec<char>> = Vec::new();
    let mut k: usize = 0;
    while k < words.len()
        invariant
            k <= words@.len(),
            all == pieces_view(words@),
            titled@.len() == k,
            pieces_view(titled@) == titled_words(all.take(k as int)),
        decreases words@.len() - k,
    {
        let t = capitalize(&words[k]);
        let ghost prev = titled@;
        titled.push(t);
        assert forall|j: int| 0 <= j <= k implies pieces_view(titled@)[j]
            == titled_words(all.take(k + 1))[j] by {
            if j < k {
                assert(titled@[j] == prev[j]);
                assert(pieces_view(prev)[j] == titled_words(all.take(k as int))[j]);
            }
        }
        assert(pieces_view(titled@) =~= titled_words(all.take(k + 1)));
        k = k + 1;
    }
    assert(all.take(words@.len() as int) =~= all);
    let mut space: Vec<char> = Vec::new();
    space.push(' ');
    assert(space@ =~= seq![' ']);
    let out = join_chars(&titled, &space);
    string_of(&out)
}

/// The snippet of a search result with context lines `lines`: the lines joined
/// by newlines, trimmed.
pub open spec fn snippet_text(lines: Seq<Seq<char>>) -> Seq<char> {
    trimmed(join_with(lines, seq!['\n']))
}

/// The snippet of a search result: its context lines joined by newlines, trimmed.
pub fn snippet_of(lines: &Vec<String>) -> (r: String)
    ensures
        r@ == snippet_text(strings_view(lines@)),
{
    let joined = join_lines(lines);
    let s = string_of(&joined);
    trim(s.as_str())
}

/// `needle` stands in `hay` from position `i` on.
pub open spec fn occurs_at(hay: Seq<char>, needle: Seq<char>, i: int) -> bool {
    0 <= i <= hay.len() - needle.len() && hay.subrange(i, i + needle.len()) == needle
}

/// `needle` occurs in `hay` (the empty needle occurs everywhere), as `str::contains` decides it.
pub open spec fn occurs_in(hay: Seq<char>, needle: Seq<char>) -> bool {
    exists|i: int| #[trigger] occurs_at(hay, needle, i)
}

/// The number of disjoint occurrences of the non-empty `needle` in `hay`, found
/// from left to right, as `str::matches` finds them.
pub open spec fn match_count(hay: Seq<char>, needle: Seq<char>) -> nat
    decreases hay.len(),
{
    if needle.len() == 0 || hay.len() < needle.len() {
        0
    } else if hay.take(needle.len() as int) == needle {
        1 + match_count(hay.skip(needle.len() as int), needle)
    } else {
        match_count(hay.drop_first(), needle)
    }
}

/// The words of `s`: the runs between whitespace that are not empty, as
/// `str::split_whitespace` yields them.
pub open spec fn words_of(s: Seq<char>) -> Seq<Seq<char>> {
    nonempty_only(split_by(s, separator(None)))
}

/// The occurrences in `snippet` of the words that take more than one byte in UTF-8.
pub open spec fn word_hits(words: Seq<Seq<char>>, snippet: Seq<char>) -> nat
    decreases words.len(),
{
    if words.len() == 0 {
        0
    } else {
        word_hits(words.drop_last(), snippet) + if encode_utf8(words.last()).len() > 1 {
            match_count(snippet, words.last())
        } else {
            0
        }
    }
}

/// The relevance of a search result to a query: 10 if the slug contains the
/// query, 5 if the snippet does, and one for each occurrence in the snippet of
/// each query word longer than one byte; all compared in lower case.
pub open spec fn relevance(query: Seq<char>, slug: Seq<char>, snippet: Seq<char>) -> nat {
    let q = lowercase(query);
    let sn = lowercase(snippet);
    (if occurs_in(lowercase(slug), q) { 10nat } else { 0nat }) + (if occurs_in(sn, q) { 5nat } else { 0nat })
        + word_hits(words_of(q), sn)
}

/// `needle` stands in `hay` at position `at`.
fn stands_at(hay: &Vec<char>, needle: &Vec<char>, at: usize) -> (r: bool)
    requires
        at + needle@.len() <= hay@.len(),
    ensures
        r == (hay@.subrange(at as int, at + needle@.len()) == needle@),
{
    let hl = hay.len();
    let mut k: usize = 0;
    while k < needle.len()
        invariant
            k <= needle@.len(),
            hl == hay@.len(),
            at + needle@.len() <= hay@.len(),
            forall|j: int| 0 <= j < k ==> hay@[at + j] == needle@[j],
        decreases needle@.len() - k,
    {
        if hay[at + k] != needle[k] {
            assert(hay@.subrange(at as int, at + needle@.len())[k as int] != needle@[k as int]);
            return false;
        }
        k = k + 1;
    }
    assert(hay@.subrange(at as int, at + needle@.len()) =~= needle@);
    true
}

/// Whether `needle` occurs in `hay`.
fn occurs(hay: &Vec<char>, needle: &Vec<char>) -> (r: bool)
    ensures
        r == occurs_in(hay@, needle@),
{
    if needle.len() > hay.len() {
        assert forall|j: int| !#[trigger] occurs_at(hay@, needle@, j) by {}
        return false;
    }
    if needle.len() == 0 {
        assert(hay@.subrange(0, 0) =~= needle@);
        assert(occurs_at(hay@, needle@, 0));
        return true;
    }
    let hl = hay.len();
    let last = hl - needle.len();
    let mut i: usize = 0;
    while i <= last
        invariant
            hl == hay@.len(),
            needle@.len() > 0,
            last + needle@.len() == hay@.len(),
            i <= last + 1,
            forall|j: int| 0 <= j < i ==> !#[trigger] occurs_at(hay@, needle@, j),
        decreases last + 1 - i,
    {
        if stands_at(hay, needle, i) {
            assert(occurs_at(hay@, needle@, i as int));
            return true;
        }
        i = i + 1;
    }
    false
}

proof fn lemma_match_count_skip(hay: Seq<char>, needle: Seq<char>, i: int)
    requires
        needle.len() > 0,
        0 <= i,
        i + needle.len() <= hay.len(),
    ensures
        hay.skip(i).take(needle.len() as int) == hay.subrange(i, i + needle.len()),
        hay.skip(i).skip(needle.len() as int) == hay.skip(i + needle.len()),
        hay.skip(i).drop_first() == hay.skip(i + 1),
{
    assert(hay.skip(i).take(needle.len() as int) =~= hay.subrange(i, i + needle.len()));
    assert(hay.skip(i).skip(needle.len() as int) =~= hay.skip(i + needle.len()));
    assert(hay.skip(i).drop_first() =~= hay.skip(i + 1));
}

/// The number of disjoint occurrences of the non-empty `needle` in `hay`.
fn count_matches(hay: &Vec<char>, needle: &Vec<char>) -> (r: usize)
    requires
        needle@.len() > 0,
    ensures
        r == match_count(hay@, needle@),
{
    let n = needle.len();
    let mut i: usize = 0;
    let mut count: usize = 0;
    assert(hay@.skip(0) =~= hay@);
    let hl = hay.len();
    while i <= hl && n <= hl - i
        invariant
            hl == hay@.len(),
            n == needle@.len() > 0,
            i <= hay@.len(),
            count <= i,
            count + match_count(hay@.skip(i as int), needle@) == match_count(hay@, needle@),
        decreases hay@.len() - i,
    {
        proof {
            lemma_match_count_skip(hay@, needle@, i as int);
        }
        if stands_at(hay, needle, i) {
            count = count + 1;
            i = i + n;
        } else {
            i = i + 1;
        }
    }
    count
}

/// A word of more than one character takes more than one byte; a single
/// character takes more than one byte when it is not ASCII.
proof fn lemma_utf8_len_more_than_one(w: Seq<char>)
    ensures
        encode_utf8(w).len() > 1 <==> (w.len() >= 2 || (w.len() == 1 && (w[0] as u32) >= 0x80)),
    decreases w.len(),
{
    reveal_with_fuel(encode_utf8, 3);
    if w.len() >= 2 {
        lemma_utf8_len_at_least(w.drop_first());
    }
}

/// Every character takes at least one byte.
proof fn lemma_utf8_len_at_least(w: Seq<char>)
    ensures
        encode_utf8(w).len() >= w.len(),
    decreases w.len(),
{
    if w.len() > 0 {
        lemma_utf8_len_at_least(w.drop_first());
    }
}

/// `relevance`, stopping at `u64::MAX`.
pub open spec fn capped_relevance(query: Seq<char>, slug: Seq<char>, snippet: Seq<char>) -> nat {
    if relevance(query, slug, snippet) > u64::MAX {
        u64::MAX as nat
    } else {
        relevance(query, slug, snippet)
    }
}

/// How relevant a search result with slug `slug` and snippet `snippet` is to
/// `query` (see `relevance`); the score stops at `u64::MAX`.
pub fn calculate_relevance(query: &str, slug: &str, snippet: &str) -> (r: u64)
    ensures
        r == capped_relevance(query@, slug@, snippet@),
{
    let query_lower = chars_of(to_lowercase(query).as_str());
    let slug_lower = chars_of(to_lowercase(slug).as_str());
    let snippet_lower = chars_of(to_lowercase(snippet).as_str());
    let mut score: u64 = 0;
    if occurs(&slug_lower, &query_lower) {
        score = score + 10;
    }
    if occurs(&snippet_lower, &query_lower) {
        score = score + 5;
    }
    let ghost base = score as nat;
    let pieces = split_chars(&query_lower, None);
    let words = nonempty_pieces(&pieces);
    let ghost ws = pieces_view(words@);
    let mut k: usize = 0;
    while k < words.len()
        invariant
            k <= words@.len(),
            ws == pieces_view(words@),
            base <= 15,
            score == if base + word_hits(ws.take(k as int), snippet_lower@) > u64::MAX {
                u64::MAX as nat
            } else {
                base + word_hits(ws.take(k as int), snippet_lower@)
            },
        decreases words@.len() - k,
    {
        let w = &words[k];
        proof {
            lemma_utf8_len_more_than_one(w@);
            assert(ws.take(k + 1).drop_last() =~= ws.take(k as int));
            assert(ws.take(k + 1).last() == w@);
        }
        if w.len() >= 2 || (w.len() == 1 && (w[0] as u32) >= 0x80) {
            let c = count_matches(&snippet_lower, w);
            score = score.saturating_add(c as u64);
        }
        k = k + 1;
    }
    assert(ws.take(words@.len() as int) =~= ws);
    score
}

/// The message when the crosslink command cannot be found.
pub const NOT_INSTALLED_MESSAGE: &'static str = "crosslink CLI is not installed or not found in PATH. Please install crosslink to use server-side features.";

/// The first argument of a command line, or nothing.
pub open spec fn first_arg(args: Seq<String>) -> Seq<char> {
    if args.len() == 0 {
        Seq::empty()
    } else {
        args[0]@
    }
}

/// What `run` returns for a finished crosslink command: its output when it
/// succeeded; otherwise an error naming the subcommand, with its error output trimmed.
pub fn run_outcome(args: &Vec<String>, success: bool, stdout: String, stderr: &str) -> (r: Result<String, GuildError>)
    ensures
        success ==> (r matches Ok(out) && out@ == stdout@),
        !success ==> (r matches Err(GuildError::Crosslink(m))
            && m@ == "crosslink "@ + first_arg(args@) + " failed: "@ + trimmed(stderr@)),
{
    if success {
        return Ok(stdout);
    }
    let mut m = String::from_str("crosslink ");
    if args.len() > 0 {
        m.append(args[0].as_str());
    }
    m.append(" failed: ");
    let t = trim(stderr);
    m.append(t.as_str());
    Err(GuildError::Crosslink(m))
}

/// The title, snippet and relevance score of a search result for `query`,
/// given the result's slug and its context lines.
pub fn search_result(query: &str, slug: &str, lines: &Vec<String>) -> (r: (String, String, u64))
    ensures
        r.0@ == title_of(slug@),
        r.1@ == snippet_text(strings_view(lines@)),
        r.2 == capped_relevance(query@, slug@, snippet_text(strings_view(lines@))),
{
    let title = slug_to_title(slug);
    let snippet = snippet_of(lines);
    let relevance = calculate_relevance(query, slug, snippet.as_str());
    (title, snippet, relevance)
}

/// The error when the crosslink command could not be started: the
/// not-installed message when it was not found, otherwise the failure `detail`.
pub fn spawn_failure(not_found: bool, detail: &str) -> (e: GuildError)
    ensures
        not_found ==> (e matches GuildError::Crosslink(m) && m@ == NOT_INSTALLED_MESSAGE@),
        !not_found ==> (e matches GuildError::Crosslink(m) && m@ == "failed to spawn crosslink: "@ + detail@),
{
    if not_found {
        GuildError::Crosslink(String::from_str(NOT_INSTALLED_MESSAGE))
    } else {
        let mut m = String::from_str("failed to spawn crosslink: ");
        m.append(detail);
        GuildError::Crosslink(m)
    }
}

/// Wherever the lowercased query occurs in the lowercased slug, at any
/// position, the result scores at least 10.
pub proof fn lemma_query_in_slug_scores(query: Seq<char>, slug: Seq<char>, snippet: Seq<char>, i: int)
    requires
        0 <= i,
        i + lowercase(query).len() <= lowercase(slug).len(),
        lowercase(slug).subrange(i, i + lowercase(query).len()) == lowercase(query),
    ensures
        relevance(query, slug, snippet) >= 10,
        capped_relevance(query, slug, snippet) >= 10,
{
    assert(occurs_at(lowercase(slug), lowercase(query), i));
}

/// Wherever the lowercased query occurs in the lowercased snippet, at any
/// position, the result scores at least 5.
pub proof fn lemma_query_in_snippet_scores(query: Seq<char>, slug: Seq<char>, snippet: Seq<char>, i: int)
    requires
        0 <= i,
        i + lowercase(query).len() <= lowercase(snippet).len(),
        lowercase(snippet).subrange(i, i + lowercase(query).len()) == lowercase(query),
    ensures
        relevance(query, slug, snippet) >= 5,
        capped_relevance(query, slug, snippet) >= 5,
{
    assert(occurs_at(lowercase(snippet), lowercase(query), i));
}

/// Each word of a title is the slug's word with its first character in upper
/// case and every later character unchanged; the words are joined by spaces.
pub proof fn lemma_title_words(slug: Seq<char>)
    ensures
        title_of(slug) == join_with(
            Seq::new(
                split_by(slug, separator(Some('-'))).len(),
                |k: int|
                    {
                        let w = split_by(slug, separator(Some('-')))[k];
                        if w.len() == 0 {
                            Seq::<char>::empty()
                        } else {
                            uppercase(w[0]) + w.subrange(1, w.len() as int)
                        }
                    },
            ),
            seq![' '],
        ),
{
    let pieces = split_by(slug, separator(Some('-')));
    let words = Seq::new(
        pieces.len(),
        |k: int|
            {
                let w = pieces[k];
                if w.len() == 0 {
                    Seq::<char>::empty()
                } else {
                    uppercase(w[0]) + w.subrange(1, w.len() as int)
                }
            },
    );
    let tw = titled_words(pieces);
    assert forall|k: int| 0 <= k < pieces.len() implies #[trigger] tw[k] == words[k] by {
        let w = pieces[k];
        if w.len() > 0 {
            assert(w.drop_first() =~= w.subrange(1, w.len() as int));
        }
    }
    assert(tw =~= words);
}

/// The title of a one-word slug is the word with its first character in upper
/// case and the rest unchanged.
pub proof fn lemma_title_of_word(w: Seq<char>)
    requires
        w.len() > 0,
        forall|k: int| 0 <= k < w.len() ==> #[trigger] w[k] != '-',
    ensures
        title_of(w) == uppercase(w[0]) + w.subrange(1, w.len() as int),
{
    let one = seq![w];
    assert forall|i: int| 0 <= i < one.len() implies crate::portfolio::dash_free(#[trigger] one[i]) by {
        assert(one[i] == w);
    }
    crate::portfolio::lemma_split_join(one);
    assert(join_with(one, seq!['-']) == w);
    let pieces = split_by(w, separator(Some('-')));
    assert(pieces == one);
    let titled = titled_words(pieces);
    assert(titled =~= seq![capitalized(w)]);
    assert(w.drop_first() =~= w.subrange(1, w.len() as int));
}

} // verus!
