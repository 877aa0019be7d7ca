use vstd::prelude::*;

verus! {

/// The characters on which an input line is split: the characters with the
/// Unicode White_Space property, the set that `str::split_whitespace` splits
/// on.
pub open spec fn is_space(c: char) -> bool {
    c == ' ' || c == '\t' || c == '\n' || c == '\r' || c == '\x0b' || c == '\x0c'
        || c == '\u{0085}' || c == '\u{00a0}' || c == '\u{1680}' || c == '\u{2000}'
        || c == '\u{2001}' || c == '\u{2002}' || c == '\u{2003}' || c == '\u{2004}'
        || c == '\u{2005}' || c == '\u{2006}' || c == '\u{2007}' || c == '\u{2008}'
        || c == '\u{2009}' || c == '\u{200a}' || c == '\u{2028}' || c == '\u{2029}'
        || c == '\u{202f}' || c == '\u{205f}' || c == '\u{3000}'
}

/// Where the word starting at position `i` ends: the first position at or
/// after `i` that is past the end of the line or holds whitespace.
pub open spec fn word_end(s: Seq<char>, i: int) -> int
    decreases s.len() - i,
{
    if i < 0 || i >= s.len() || is_space(s[i]) {
        i
    } else {
        word_end(s, i + 1)
    }
}

pub proof fn lemma_word_end_bounds(s: Seq<char>, i: int)
    requires
        0 <= i <= s.len(),
    ensures
        i <= word_end(s, i) <= s.len(),
    decreases s.len() - i,
{
    if i < s.len() && !is_space(s[i]) {
        lemma_word_end_bounds(s, i + 1);
    }
}

/// The tokens of the suffix of `s` that starts at position `i`: maximal runs
/// of non-whitespace characters, in order.
pub open spec fn tokens_from(s: Seq<char>, i: int) -> Seq<Seq<char>>
    decreases s.len() - i,
    via tokens_from_decreases
{
    if i < 0 || i >= s.len() {
        Seq::empty()
    } else if is_space(s[i]) {
        tokens_from(s, i + 1)
    } else {
        seq![s.subrange(i, word_end(s, i))] + tokens_from(s, word_end(s, i))
    }
}

#[via_fn]
proof fn tokens_from_decreases(s: Seq<char>, i: int) {
    if 0 <= i < s.len() && !is_space(s[i]) {
        lemma_word_end_bounds(s, i + 1);
    }
}

/// The tokens of a whole input line.
pub open spec fn tokens_of(s: Seq<char>) -> Seq<Seq<char>> {
    tokens_from(s, 0)
}

/// A line that holds only whitespace has no tokens.
pub proof fn lemma_all_space_no_tokens(s: Seq<char>)
    requires
        forall|k: int| 0 <= k < s.len() ==> is_space(#[trigger] s[k]),
    ensures
        tokens_of(s).len() == 0,
{
    lemma_all_space_no_tokens_from(s, 0);
}

proof fn lemma_all_space_no_tokens_from(s: Seq<char>, i: int)
    requires
        forall|k: int| 0 <= k < s.len() ==> is_space(#[trigger] s[k]),
        0 <= i,
    ensures
        tokens_from(s, i).len() == 0,
    decreases s.len() - i,
{
    if i < s.len() {
        lemma_all_space_no_tokens_from(s, i + 1);
    }
}

proof fn lemma_word_end_no_space(s: Seq<char>, i: int)
    requires
        0 <= i,
    ensures
        forall|k: int| i <= k < word_end(s, i) ==> !is_space(#[trigger] s[k]),
    decreases s.len() - i,
{
    if i < s.len() && !is_space(s[i]) {
        lemma_word_end_no_space(s, i + 1);
    }
}

/// Whether `t` is a word: non-empty, with no whitespace in it.
pub open spec fn is_word(t: Seq<char>) -> bool {
    t.len() > 0 && forall|j: int| 0 <= j < t.len() ==> !is_space(#[trigger] t[j])
}

/// Every token of a line is a word: non-empty, with no whitespace in it.
pub proof fn lemma_tokens_are_words(s: Seq<char>)
    ensures
        forall|k: int| 0 <= k < tokens_of(s).len() ==> is_word(#[trigger] tokens_of(s)[k]),
{
    lemma_tokens_from_words(s, 0);
}

proof fn lemma_tokens_from_words(s: Seq<char>, i: int)
    requires
        0 <= i,
    ensures
        forall|k: int|
            0 <= k < tokens_from(s, i).len() ==> is_word(#[trigger] tokens_from(s, i)[k]),
    decreases s.len() - i,
{
    if i >= s.len() {
        assert(tokens_from(s, i).len() == 0);
    } else {
        if is_space(s[i]) {
            lemma_tokens_from_words(s, i + 1);
            assert forall|k: int| 0 <= k < tokens_from(s, i).len() implies is_word(
                #[trigger] tokens_from(s, i)[k],
            ) by {
                assert(tokens_from(s, i) == tokens_from(s, i + 1));
                assert(is_word(tokens_from(s, i + 1)[k]));
            }
        } else {
            lemma_word_end_bounds(s, i + 1);
            lemma_word_end_no_space(s, i);
            lemma_tokens_from_words(s, word_end(s, i));
            let head = s.subrange(i, word_end(s, i));
            let tail = tokens_from(s, word_end(s, i));
            assert(word_end(s, i) == word_end(s, i + 1));
            assert(head.len() > 0);
            assert(is_word(head));
            assert forall|k: int| 0 <= k < tokens_from(s, i).len() implies is_word(
                #[trigger] tokens_from(s, i)[k],
            ) by {
                if k == 0 {
                    assert(tokens_from(s, i)[k] == head);
                } else {
                    assert(tokens_from(s, i)[k] == tail[k - 1]);
                    assert(is_word(tail[k - 1]));
                }
            }
        }
    }
}

/// Whether `c` separates tokens.
fn space_char(c: char) -> (r: bool)
    ensures
        r == is_space(c),
{
    c == ' ' || c == '\t' || c == '\n' || c == '\r' || c == '\x0b' || c == '\x0c'
        || c == '\u{0085}' || c == '\u{00a0}' || c == '\u{1680}' || c == '\u{2000}'
        || c == '\u{2001}' || c == '\u{2002}' || c == '\u{2003}' || c == '\u{2004}'
        || c == '\u{2005}' || c == '\u{2006}' || c == '\u{2007}' || c == '\u{2008}'
        || c == '\u{2009}' || c == '\u{200a}' || c == '\u{2028}' || c == '\u{2029}'
        || c == '\u{202f}' || c == '\u{205f}' || c == '\u{3000}'
}

/// The ordered tokens of one input line.
pub struct List {
    pub tokens: Vec<String>,
}

impl View for List {
    type V = Seq<Seq<char>>;

    open spec fn view(&self) -> Seq<Seq<char>> {
        self.tokens.deep_view()
    }
}

impl List {
    /// Split an input line into tokens on runs of whitespace; a line of only
    /// whitespace gives an empty list.
    pub fn new(content: &String) -> (r: List)
        ensures
            r@ == tokens_of(content@),
    {
        let s = content.as_str();
        let n = s.unicode_len();
        let mut tokens: Vec<String> = Vec::new();
        proof {
            assert(tokens.deep_view() + tokens_from(s@, 0) =~= tokens_of(s@));
        }
        let mut i: usize = 0;
        while i < n
            invariant
                n == s@.len(),
                s@ == content@,
                i <= n,
                tokens.deep_view() + tokens_from(s@, i as int) =~= tokens_of(s@),
            decreases n - i,
        {
            let c = s.get_char(i);
            if space_char(c) {
                i = i + 1;
            } else {
                let mut j: usize = i + 1;
                while j < n && !space_char(s.get_char(j))
                    invariant
                        n == s@.len(),
                        i < j <= n,
                        word_end(s@, i as int) == word_end(s@, j as int),
                    decreases n - j,
                {
                    j = j + 1;
                }
                assert(word_end(s@, i as int) == j);
                let word = s.substring_char(i, j);
                let ghost before = tokens.deep_view();
                tokens.push(word.to_owned());
                proof {
                    assert(tokens.deep_view() =~= before.push(s@.subrange(i as int, j as int)));
                    assert(tokens.deep_view() + tokens_from(s@, j as int) =~= tokens_of(s@));
                }
                i = j;
            }
        }
        let r = List { tokens };
        proof {
            assert(r@ =~= tokens_of(content@));
        }
        r
    }
}

} // verus!
