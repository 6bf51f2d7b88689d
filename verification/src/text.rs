//! Character-level text processing for the corpus: whitespace trimming,
//! case folding, word-boundary tokenization, substring matching, and
//! match highlighting. Tokenization is case-insensitive at the ASCII
//! level: a word is a maximal run of ASCII letters and digits, folded to
//! lower case; every other character separates words and is preserved
//! verbatim by highlighting.

use vstd::prelude::*;
use vstd::string::*;

verus! {

/// A character that can appear inside a word token.
pub open spec fn is_word_char(c: char) -> bool {
    ('a' <= c && c <= 'z') || ('A' <= c && c <= 'Z') || ('0' <= c && c <= '9')
}

/// Whitespace for the purpose of trimming.
pub open spec fn is_space_char(c: char) -> bool {
    c == ' ' || c == '\t' || c == '\n' || c == '\r'
}

/// ASCII case folding of one character.
pub open spec fn lower_char(c: char) -> char {
    if 'A' <= c && c <= 'Z' {
        ((c as u32) + 32) as char
    } else {
        c
    }
}

/// ASCII case folding of a whole sequence.
pub open spec fn lower_seq(s: Seq<char>) -> Seq<char> {
    Seq::new(s.len(), |i: int| lower_char(s[i]))
}

/// Length of the maximal word-character prefix of `s`.
pub open spec fn word_len(s: Seq<char>) -> nat
    decreases s.len(),
{
    if s.len() > 0 && is_word_char(s[0]) {
        (1 + word_len(s.skip(1))) as nat
    } else {
        0
    }
}

pub proof fn lemma_word_len_le(s: Seq<char>)
    ensures
        word_len(s) <= s.len(),
    decreases s.len(),
{
    if s.len() > 0 && is_word_char(s[0]) {
        lemma_word_len_le(s.skip(1));
    }
}

/// `word_len(s) == k` exactly when the first `k` characters are word
/// characters and the run stops there.
pub proof fn lemma_word_len_is(s: Seq<char>, k: int)
    requires
        0 <= k <= s.len(),
        forall|m: int| 0 <= m < k ==> is_word_char(s[m]),
        k == s.len() || !is_word_char(s[k]),
    ensures
        word_len(s) == k,
    decreases k,
{
    if k == 0 {
    } else {
        assert(is_word_char(s[0]));
        lemma_word_len_is(s.skip(1), k - 1);
    }
}

/// The sequence of lowercased word tokens of `s`, in order of appearance.
pub open spec fn tokens_of(s: Seq<char>) -> Seq<Seq<char>>
    decreases s.len(),
    via tokens_of_decreases
{
    if s.len() == 0 {
        Seq::empty()
    } else if !is_word_char(s[0]) {
        tokens_of(s.skip(1))
    } else {
        seq![lower_seq(s.take(word_len(s) as int))] + tokens_of(s.skip(word_len(s) as int))
    }
}

#[via_fn]
proof fn tokens_of_decreases(s: Seq<char>) {
    lemma_word_len_le(s);
}

/// `s` with every word token whose lowercased form is in `toks` wrapped
/// in a `**` pair; every other character is preserved verbatim.
pub open spec fn highlight_seq(s: Seq<char>, toks: Seq<Seq<char>>) -> Seq<char>
    decreases s.len(),
    via highlight_seq_decreases
{
    if s.len() == 0 {
        Seq::empty()
    } else if !is_word_char(s[0]) {
        seq![s[0]] + highlight_seq(s.skip(1), toks)
    } else {
        let w = s.take(word_len(s) as int);
        (if toks.contains(lower_seq(w)) {
            seq!['*', '*'] + w + seq!['*', '*']
        } else {
            w
        }) + highlight_seq(s.skip(word_len(s) as int), toks)
    }
}

#[via_fn]
proof fn highlight_seq_decreases(s: Seq<char>, toks: Seq<Seq<char>>) {
    lemma_word_len_le(s);
}

/// `s` without its leading whitespace.
pub open spec fn trim_front(s: Seq<char>) -> Seq<char>
    decreases s.len(),
{
    if s.len() > 0 && is_space_char(s[0]) {
        trim_front(s.skip(1))
    } else {
        s
    }
}

/// `s` without its trailing whitespace.
pub open spec fn trim_back(s: Seq<char>) -> Seq<char>
    decreases s.len(),
{
    if s.len() > 0 && is_space_char(s[s.len() - 1]) {
        trim_back(s.take(s.len() - 1))
    } else {
        s
    }
}

/// `s` without leading and trailing whitespace.
pub open spec fn trim_seq(s: Seq<char>) -> Seq<char> {
    trim_back(trim_front(s))
}

/// `needle` occurs contiguously in `hay`.
pub open spec fn contains_seq(hay: Seq<char>, needle: Seq<char>) -> bool {
    exists|i: int|
        0 <= i && i + needle.len() <= hay.len() && #[trigger] hay.subrange(
            i,
            i + needle.len(),
        ) == needle
}

/// Relies on `String`'s `FromIterator<char>` impl: collecting characters
/// yields the string of exactly those characters in order.
#[verifier::external_body]
pub fn chars_to_string(v: &Vec<char>) -> (r: String)
    ensures
        r@ == v@,
{
    v.iter().collect()
}

/// The characters of `s` as a vector.
pub fn string_chars(s: &str) -> (v: Vec<char>)
    ensures
        v@ == s@,
{
    let n = s.unicode_len();
    let mut v: Vec<char> = Vec::new();
    let mut i: usize = 0;
    while i < n
        invariant
            i <= n,
            n == s@.len(),
            v@ == s@.take(i as int),
        decreases n - i,
    {
        let c = s.get_char(i);
        proof {
            assert(s@.take(i + 1) =~= s@.take(i as int).push(s@[i as int]));
        }
        v.push(c);
        i += 1;
    }
    proof {
        assert(s@.take(n as int) =~= s@);
    }
    v
}

/// ASCII case folding of one character.
pub fn lower_char_exec(c: char) -> (r: char)
    ensures
        r == lower_char(c),
{
    if 'A' <= c && c <= 'Z' {
        (((c as u8) + 32)) as char
    } else {
        c
    }
}

/// Whether `c` can appear inside a word token.
pub fn is_word_char_exec(c: char) -> (r: bool)
    ensures
        r == is_word_char(c),
{
    ('a' <= c && c <= 'z') || ('A' <= c && c <= 'Z') || ('0' <= c && c <= '9')
}

/// Whether `c` counts as whitespace for trimming.
pub fn is_space_char_exec(c: char) -> (r: bool)
    ensures
        r == is_space_char(c),
{
    c == ' ' || c == '\t' || c == '\n' || c == '\r'
}

pub proof fn lemma_trim_front_at(s: Seq<char>, k: int)
    requires
        0 <= k <= s.len(),
        forall|m: int| 0 <= m < k ==> is_space_char(s[m]),
        k == s.len() || !is_space_char(s[k]),
    ensures
        trim_front(s) == s.skip(k),
    decreases k,
{
    if k == 0 {
        assert(s.skip(0) =~= s);
    } else {
        assert(is_space_char(s[0]));
        lemma_trim_front_at(s.skip(1), k - 1);
        assert(s.skip(1).skip(k - 1) =~= s.skip(k));
    }
}

pub proof fn lemma_trim_back_at(s: Seq<char>, k: int)
    requires
        0 <= k <= s.len(),
        forall|m: int| k <= m < s.len() ==> is_space_char(s[m]),
        k == 0 || !is_space_char(s[k - 1]),
    ensures
        trim_back(s) == s.take(k),
    decreases s.len() - k,
{
    if k == s.len() {
        assert(s.take(k) =~= s);
    } else {
        assert(is_space_char(s[s.len() - 1]));
        lemma_trim_back_at(s.take(s.len() - 1), k);
        assert(s.take(s.len() - 1).take(k) =~= s.take(k));
    }
}

/// `s` without leading and trailing whitespace.
pub fn trim_string(s: &str) -> (r: String)
    ensures
        r@ == trim_seq(s@),
{
    let v = string_chars(s);
    let n = v.len();
    let mut start: usize = 0;
    while start < n && is_space_char_exec(v[start])
        invariant
            start <= n,
            n == v@.len(),
            forall|m: int| 0 <= m < start ==> is_space_char(v@[m]),
        decreases n - start,
    {
        start += 1;
    }
    let mut end: usize = n;
    while end > start && is_space_char_exec(v[end - 1])
        invariant
            start <= end <= n,
            n == v@.len(),
            forall|m: int| end <= m < n ==> is_space_char(v@[m]),
        decreases end,
    {
        end -= 1;
    }
    proof {
        lemma_trim_front_at(v@, start as int);
        if end == start {
            lemma_trim_back_at(v@.skip(start as int), 0);
        } else {
            lemma_trim_back_at(v@.skip(start as int), end - start);
        }
        assert(v@.skip(start as int).take(end - start) =~= v@.subrange(
            start as int,
            end as int,
        ));
    }
    let mut out: Vec<char> = Vec::new();
    let mut i: usize = start;
    while i < end
        invariant
            start <= i <= end <= n,
            n == v@.len(),
            out@ == v@.subrange(start as int, i as int),
        decreases end - i,
    {
        proof {
            assert(v@.subrange(start as int, i + 1) =~= v@.subrange(
                start as int,
                i as int,
            ).push(v@[i as int]));
        }
        out.push(v[i]);
        i += 1;
    }
    chars_to_string(&out)
}

/// First position at or after `start` that ends the word run beginning
/// at `start`.
fn word_end(v: &Vec<char>, start: usize) -> (j: usize)
    requires
        start < v@.len(),
        is_word_char(v@[start as int]),
    ensures
        start < j <= v@.len(),
        forall|m: int| start <= m < j ==> is_word_char(v@[m]),
        j == v@.len() || !is_word_char(v@[j as int]),
        j - start == word_len(v@.skip(start as int)),
{
    let mut j: usize = start;
    while j < v.len() && is_word_char_exec(v[j])
        invariant
            start <= j <= v@.len(),
            forall|m: int| start <= m < j ==> is_word_char(v@[m]),
        decreases v@.len() - j,
    {
        j += 1;
    }
    proof {
        let sk = v@.skip(start as int);
        assert(forall|m: int| 0 <= m < j - start ==> sk[m] == v@[m + start]);
        lemma_word_len_is(sk, j - start);
    }
    j
}

/// The lowercased copy of `v[from..to]`.
fn lower_segment(v: &Vec<char>, from: usize, to: usize) -> (tok: Vec<char>)
    requires
        from <= to <= v@.len(),
    ensures
        tok@ == lower_seq(v@.subrange(from as int, to as int)),
{
    let mut tok: Vec<char> = Vec::new();
    let mut m: usize = from;
    while m < to
        invariant
            from <= m <= to <= v@.len(),
            tok@ == lower_seq(v@.subrange(from as int, m as int)),
        decreases to - m,
    {
        proof {
            assert(lower_seq(v@.subrange(from as int, m + 1)) =~= lower_seq(
                v@.subrange(from as int, m as int),
            ).push(lower_char(v@[m as int])));
        }
        tok.push(lower_char_exec(v[m]));
        m += 1;
    }
    tok
}

/// The lowercased word tokens of `s`, in order of appearance.
pub fn tokenize(s: &str) -> (r: Vec<String>)
    ensures
        r.deep_view() == tokens_of(s@),
{
    let v = string_chars(s);
    let n = v.len();
    let mut out: Vec<String> = Vec::new();
    let mut i: usize = 0;
    proof {
        assert(s@.skip(0) =~= s@);
        assert(out.deep_view() =~= Seq::<Seq<char>>::empty());
    }
    while i < n
        invariant
            i <= n,
            n == v@.len(),
            v@ == s@,
            tokens_of(s@) == out.deep_view() + tokens_of(s@.skip(i as int)),
        decreases n - i,
    {
        if !is_word_char_exec(v[i]) {
            proof {
                assert(s@.skip(i as int).skip(1) =~= s@.skip(i + 1));
            }
            i += 1;
        } else {
            let j = word_end(&v, i);
            let tok = lower_segment(&v, i, j);
            let ghost pre = out.deep_view();
            out.push(chars_to_string(&tok));
            proof {
                let sk = s@.skip(i as int);
                assert(sk.take(j - i) =~= s@.subrange(i as int, j as int));
                assert(sk.skip(j - i) =~= s@.skip(j as int));
                assert(out.deep_view() =~= pre + seq![tok@]);
                assert(tokens_of(sk) == seq![lower_seq(s@.subrange(i as int, j as int))]
                    + tokens_of(s@.skip(j as int)));
                assert(tokens_of(s@) =~= out.deep_view() + tokens_of(s@.skip(j as int)));
            }
            i = j;
        }
    }
    proof {
        assert(s@.skip(n as int) =~= Seq::<char>::empty());
        assert(tokens_of(s@) =~= out.deep_view());
    }
    out
}

/// The ASCII-lowercased copy of `s`.
pub fn lower_string(s: &str) -> (r: String)
    ensures
        r@ == lower_seq(s@),
{
    let v = string_chars(s);
    let n = v.len();
    let low = lower_segment(&v, 0, n);
    proof {
        assert(v@.subrange(0, n as int) =~= v@);
    }
    chars_to_string(&low)
}

/// Whether two strings hold the same characters.
pub fn string_eq(a: &String, b: &String) -> (r: bool)
    ensures
        r == (a@ == b@),
{
    a.eq(b)
}

/// Whether `w` is one of the tokens in `toks`.
pub fn contains_token(toks: &Vec<String>, w: &String) -> (r: bool)
    ensures
        r == toks.deep_view().contains(w@),
{
    let mut k: usize = 0;
    while k < toks.len()
        invariant
            k <= toks@.len(),
            forall|m: int| 0 <= m < k ==> toks.deep_view()[m] != w@,
        decreases toks@.len() - k,
    {
        if string_eq(&toks[k], w) {
            proof {
                assert(toks.deep_view()[k as int] == w@);
            }
            return true;
        }
        k += 1;
    }
    proof {
        assert(!toks.deep_view().contains(w@));
    }
    false
}

/// `s` with every word token whose lowercased form is in `toks` wrapped
/// in a `**` pair.
pub fn highlight(s: &str, toks: &Vec<String>) -> (r: String)
    ensures
        r@ == highlight_seq(s@, toks.deep_view()),
{
    let v = string_chars(s);
    let n = v.len();
    let mut out: Vec<char> = Vec::new();
    let mut i: usize = 0;
    proof {
        assert(s@.skip(0) =~= s@);
        assert(out@ + highlight_seq(s@, toks.deep_view()) =~= highlight_seq(
            s@,
            toks.deep_view(),
        ));
    }
    while i < n
        invariant
            i <= n,
            n == v@.len(),
            v@ == s@,
            highlight_seq(s@, toks.deep_view()) == out@ + highlight_seq(
                s@.skip(i as int),
                toks.deep_view(),
            ),
        decreases n - i,
    {
        let ghost td = toks.deep_view();
        let ghost pre = out@;
        if !is_word_char_exec(v[i]) {
            out.push(v[i]);
            proof {
                assert(s@.skip(i as int).skip(1) =~= s@.skip(i + 1));
                assert(out@ =~= pre + seq![s@[i as int]]);
                assert(highlight_seq(s@, td) =~= out@ + highlight_seq(s@.skip(i + 1), td));
            }
            i += 1;
        } else {
            let j = word_end(&v, i);
            let low = lower_segment(&v, i, j);
            let lows = chars_to_string(&low);
            let matched = contains_token(toks, &lows);
            proof {
                let sk = s@.skip(i as int);
                assert(sk.take(j - i) =~= s@.subrange(i as int, j as int));
                assert(sk.skip(j - i) =~= s@.skip(j as int));
            }
            if matched {
                out.push('*');
                out.push('*');
            }
            let ghost base = out@;
            let mut m: usize = i;
            while m < j
                invariant
                    i <= m <= j <= n,
                    n == v@.len(),
                    out@ == base + v@.subrange(i as int, m as int),
                decreases j - m,
            {
                proof {
                    assert(v@.subrange(i as int, m + 1) =~= v@.subrange(
                        i as int,
                        m as int,
                    ).push(v@[m as int]));
                }
                out.push(v[m]);
                m += 1;
            }
            if matched {
                out.push('*');
                out.push('*');
            }
            proof {
                let w = s@.subrange(i as int, j as int);
                if matched {
                    assert(out@ =~= pre + (seq!['*', '*'] + w + seq!['*', '*']));
                } else {
                    assert(out@ =~= pre + w);
                }
                assert(highlight_seq(s@, td) =~= out@ + highlight_seq(s@.skip(j as int), td));
            }
            i = j;
        }
    }
    proof {
        assert(s@.skip(n as int) =~= Seq::<char>::empty());
        assert(highlight_seq(s@, toks.deep_view()) =~= out@);
    }
    chars_to_string(&out)
}

/// Whether `nd` occurs in `h` starting at position `i`.
fn match_at(h: &Vec<char>, nd: &Vec<char>, i: usize) -> (r: bool)
    requires
        i + nd@.len() <= h@.len(),
    ensures
        r == (h@.subrange(i as int, i + nd@.len()) == nd@),
{
    let hlen = h.len();
    let mut j: usize = 0;
    while j < nd.len()
        invariant
            j <= nd@.len(),
            i + nd@.len() <= h@.len(),
            hlen == h@.len(),
            forall|m: int| 0 <= m < j ==> h@[i + m] == nd@[m],
        decreases nd@.len() - j,
    {
        if h[i + j] != nd[j] {
            proof {
                assert(h@.subrange(i as int, i + nd@.len())[j as int] != nd@[j as int]);
            }
            return false;
        }
        j += 1;
    }
    proof {
        assert(h@.subrange(i as int, i + nd@.len()) =~= nd@);
    }
    true
}

/// Whether `needle` occurs contiguously in `hay`.
pub fn contains_str(hay: &str, needle: &str) -> (r: bool)
    ensures
        r == contains_seq(hay@, needle@),
{
    let h = string_chars(hay);
    let nd = string_chars(needle);
    if nd.len() > h.len() {
        return false;
    }
    let last = h.len() - nd.len();
    let mut i: usize = 0;
    loop
        invariant
            i <= last,
            last == h@.len() - nd@.len(),
            h@ == hay@,
            nd@ == needle@,
            forall|m: int|
                0 <= m < i ==> #[trigger] hay@.subrange(m, m + needle@.len()) != needle@,
        decreases last - i,
    {
        if match_at(&h, &nd, i) {
            proof {
                assert(hay@.subrange(i as int, i + needle@.len()) == needle@);
            }
            return true;
        }
        if i == last {
            proof {
                assert(forall|m: int|
                    0 <= m <= last ==> #[trigger] hay@.subrange(m, m + needle@.len())
                        != needle@);
            }
            return false;
        }
        i += 1;
    }
}

} // verus!
