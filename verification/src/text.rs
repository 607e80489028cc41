use vstd::prelude::*;

verus! {

/// Whitespace separates tokens and is never part of one: space, newline,
/// carriage return and tab. Every other character, the other space
/// characters of Unicode among them, is an ordinary character.
pub open spec fn is_whitespace(c: char) -> bool {
    c == ' ' || c == '\n' || c == '\r' || c == '\t'
}

/// The characters that stand for a token of their own.
pub open spec fn is_structural(c: char) -> bool {
    c == '(' || c == ')' || c == ';'
}

/// The double quote, which opens and closes a string literal.
pub open spec fn is_quote(c: char) -> bool {
    c == '"'
}

/// A delimiter ends a keyword: whitespace, a structural character or a
/// double quote.
pub open spec fn is_delimiter(c: char) -> bool {
    is_whitespace(c) || is_structural(c) || is_quote(c)
}

/// Tells whether `c` is whitespace.
pub fn whitespace(c: char) -> (r: bool)
    ensures
        r == is_whitespace(c),
{
    c == ' ' || c == '\n' || c == '\r' || c == '\t'
}

/// Tells whether `c` ends a keyword.
pub fn delimiter(c: char) -> (r: bool)
    ensures
        r == is_delimiter(c),
{
    whitespace(c) || c == '(' || c == ')' || c == ';' || c == '"'
}

/// The number of characters at the front of `s` before the first one that
/// `stop` holds of; the length of `s` if there is none.
pub open spec fn run_len(s: Seq<char>, stop: spec_fn(char) -> bool) -> int
    decreases s.len(),
{
    if s.len() == 0 || stop(s[0]) {
        0
    } else {
        1 + run_len(s.skip(1), stop)
    }
}

/// A run is a prefix of the text it is taken from.
pub proof fn lemma_run_len_bound(s: Seq<char>, stop: spec_fn(char) -> bool)
    ensures
        0 <= run_len(s, stop) <= s.len(),
    decreases s.len(),
{
    if s.len() != 0 && !stop(s[0]) {
        lemma_run_len_bound(s.skip(1), stop);
    }
}

/// A run holds no stopping character, and the character after it, if there
/// is one, stops it.
pub proof fn lemma_run_len_maximal(s: Seq<char>, stop: spec_fn(char) -> bool)
    ensures
        forall|i: int| 0 <= i < run_len(s, stop) ==> !stop(#[trigger] s[i]),
        run_len(s, stop) < s.len() ==> stop(s[run_len(s, stop)]),
    decreases s.len(),
{
    lemma_run_len_bound(s, stop);
    if s.len() != 0 && !stop(s[0]) {
        let tail = s.skip(1);
        lemma_run_len_maximal(tail, stop);
        lemma_run_len_bound(tail, stop);
        assert forall|i: int| 0 <= i < run_len(s, stop) implies !stop(#[trigger] s[i]) by {
            if i > 0 {
                assert(s[i] == tail[i - 1]);
            }
        }
        if run_len(s, stop) < s.len() {
            assert(s[run_len(s, stop)] == tail[run_len(tail, stop)]);
        }
    }
}

/// A prefix without stopping characters is part of the run, which goes on
/// into what follows.
pub proof fn lemma_run_len_concat(a: Seq<char>, b: Seq<char>, stop: spec_fn(char) -> bool)
    requires
        forall|i: int| 0 <= i < a.len() ==> !stop(#[trigger] a[i]),
    ensures
        run_len(a + b, stop) == a.len() + run_len(b, stop),
    decreases a.len(),
{
    if a.len() == 0 {
        assert(a + b =~= b);
    } else {
        assert((a + b)[0] == a[0]);
        assert((a + b).skip(1) =~= a.skip(1) + b);
        assert forall|i: int| 0 <= i < a.skip(1).len() implies !stop(#[trigger] a.skip(1)[i]) by {
            assert(a.skip(1)[i] == a[i + 1]);
        }
        lemma_run_len_concat(a.skip(1), b, stop);
    }
}

/// The text `s` without the whitespace at its front.
pub open spec fn trim_start(s: Seq<char>) -> Seq<char>
    decreases s.len(),
{
    if s.len() > 0 && is_whitespace(s[0]) {
        trim_start(s.skip(1))
    } else {
        s
    }
}

/// The text `s` without the whitespace at its end.
pub open spec fn trim_end(s: Seq<char>) -> Seq<char>
    decreases s.len(),
{
    if s.len() > 0 && is_whitespace(s.last()) {
        trim_end(s.drop_last())
    } else {
        s
    }
}

/// The text `s` without the whitespace at its front and at its end.
pub open spec fn trim(s: Seq<char>) -> Seq<char> {
    trim_end(trim_start(s))
}

/// `trim_start` drops a prefix of whitespace. Returns its length.
pub proof fn lemma_trim_start(s: Seq<char>) -> (n: int)
    ensures
        0 <= n <= s.len(),
        trim_start(s) == s.skip(n),
        forall|i: int| 0 <= i < n ==> is_whitespace(#[trigger] s[i]),
    decreases s.len(),
{
    if s.len() > 0 && is_whitespace(s[0]) {
        let m = lemma_trim_start(s.skip(1));
        assert(s.skip(1).skip(m) =~= s.skip(m + 1));
        assert forall|i: int| 0 <= i < m + 1 implies is_whitespace(#[trigger] s[i]) by {
            if i > 0 {
                assert(s[i] == s.skip(1)[i - 1]);
            }
        }
        m + 1
    } else {
        assert(s.skip(0) =~= s);
        0
    }
}

/// `trim_end` drops a suffix of whitespace. Returns the length of what is
/// left.
pub proof fn lemma_trim_end(s: Seq<char>) -> (n: int)
    ensures
        0 <= n <= s.len(),
        trim_end(s) == s.take(n),
        forall|i: int| n <= i < s.len() ==> is_whitespace(#[trigger] s[i]),
    decreases s.len(),
{
    if s.len() > 0 && is_whitespace(s.last()) {
        let m = lemma_trim_end(s.drop_last());
        assert(s.drop_last().take(m) =~= s.take(m));
        assert forall|i: int| m <= i < s.len() implies is_whitespace(#[trigger] s[i]) by {
            if i < s.len() - 1 {
                assert(s[i] == s.drop_last()[i]);
            }
        }
        m
    } else {
        assert(s.take(s.len() as int) =~= s);
        s.len() as int
    }
}

} // verus!
