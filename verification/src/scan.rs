//! Going through the characters of a text: runs of spaces and of letters and
//! digits, the next place of a character, words in either case.

use crate::text::{ascii_upper, is_alphanumeric, is_space};
use vstd::prelude::*;
use vstd::string::StrSliceExecFns;

verus! {

/// Where the run of spaces that starts at `i` ends: the first position from
/// `i` on that holds no space, or the end of the text.
pub open spec fn spaces_end(s: Seq<char>, i: int) -> int
    decreases s.len() - i,
{
    if 0 <= i < s.len() && is_space(s[i]) {
        spaces_end(s, i + 1)
    } else {
        i
    }
}

/// Where the run of letters and digits that starts at `i` ends.
pub open spec fn word_end(s: Seq<char>, i: int) -> int
    decreases s.len() - i,
{
    if 0 <= i < s.len() && is_alphanumeric(s[i]) {
        word_end(s, i + 1)
    } else {
        i
    }
}

/// The first position from `i` on that holds `c`, or the end of the text.
pub open spec fn find(s: Seq<char>, i: int, c: char) -> int
    decreases s.len() - i,
{
    if 0 <= i < s.len() && s[i] != c {
        find(s, i + 1, c)
    } else {
        i
    }
}

/// Where the name that starts at `i` ends: before the next blank, if one
/// follows anywhere; else before the next semicolon, if one follows; else
/// before the next character of code 0, or at the end of the text.
pub open spec fn token_end(s: Seq<char>, i: int) -> int {
    if find(s, i, ' ') < s.len() {
        find(s, i, ' ')
    } else if find(s, i, ';') < s.len() {
        find(s, i, ';')
    } else {
        find(s, i, '\0')
    }
}

/// Whether `word`, which is written in capital letters, stands at `i` in
/// letters of either case.
pub open spec fn keyword_at(s: Seq<char>, i: int, word: Seq<char>) -> bool {
    &&& 0 <= i
    &&& i + word.len() <= s.len()
    &&& forall|k: int| 0 <= k < word.len() ==> ascii_upper(#[trigger] s[i + k]) == word[k]
}

/// A run of spaces ends between its start and the end of the text.
pub proof fn lemma_spaces_end_bounds(s: Seq<char>, i: int)
    requires
        0 <= i <= s.len(),
    ensures
        i <= spaces_end(s, i) <= s.len(),
    decreases s.len() - i,
{
    if i < s.len() && is_space(s[i]) {
        lemma_spaces_end_bounds(s, i + 1);
    }
}

/// A run of letters and digits ends between its start and the end of the
/// text.
pub proof fn lemma_word_end_bounds(s: Seq<char>, i: int)
    requires
        0 <= i <= s.len(),
    ensures
        i <= word_end(s, i) <= s.len(),
    decreases s.len() - i,
{
    if i < s.len() && is_alphanumeric(s[i]) {
        lemma_word_end_bounds(s, i + 1);
    }
}

/// Passes over the spaces from `i` on.
pub fn skip_spaces(s: &Vec<char>, i: usize) -> (r: usize)
    requires
        i <= s.len(),
    ensures
        r == spaces_end(s@, i as int),
        i <= r <= s.len(),
{
    let mut j: usize = i;
    while j < s.len() && is_space(s[j])
        invariant
            i <= j <= s.len(),
            spaces_end(s@, i as int) == spaces_end(s@, j as int),
        decreases s.len() - j,
    {
        j += 1;
    }
    j
}

/// Passes over the letters and digits from `i` on.
pub fn skip_word(s: &Vec<char>, i: usize) -> (r: usize)
    requires
        i <= s.len(),
    ensures
        r == word_end(s@, i as int),
        i <= r <= s.len(),
{
    let mut j: usize = i;
    while j < s.len() && is_alphanumeric(s[j])
        invariant
            i <= j <= s.len(),
            word_end(s@, i as int) == word_end(s@, j as int),
        decreases s.len() - j,
    {
        j += 1;
    }
    j
}

/// Looks for `c` from `i` on.
pub fn find_char(s: &Vec<char>, i: usize, c: char) -> (r: usize)
    requires
        i <= s.len(),
    ensures
        r == find(s@, i as int, c),
        i <= r <= s.len(),
{
    let mut j: usize = i;
    while j < s.len() && s[j] != c
        invariant
            i <= j <= s.len(),
            find(s@, i as int, c) == find(s@, j as int, c),
        decreases s.len() - j,
    {
        j += 1;
    }
    j
}

/// Where the name that starts at `i` ends.
pub fn parse_until_next_keyword(s: &Vec<char>, i: usize) -> (r: usize)
    requires
        i <= s.len(),
    ensures
        r == token_end(s@, i as int),
        i <= r <= s.len(),
{
    let blank = find_char(s, i, ' ');
    if blank < s.len() {
        return blank;
    }
    let semicolon = find_char(s, i, ';');
    if semicolon < s.len() {
        return semicolon;
    }
    find_char(s, i, '\0')
}

/// Whether `word`, which is written in capital letters, stands at `i` in
/// letters of either case.
pub fn is_keyword_at(s: &Vec<char>, i: usize, word: &str) -> (r: bool)
    requires
        i <= s.len(),
    ensures
        r == keyword_at(s@, i as int, word@),
{
    let n = word.unicode_len();
    if n > s.len() - i {
        return false;
    }
    let mut k: usize = 0;
    while k < n
        invariant
            k <= n,
            n == word@.len(),
            i + n <= s.len(),
            forall|m: int| 0 <= m < k ==> ascii_upper(#[trigger] s@[i + m]) == word@[m],
        decreases n - k,
    {
        if ascii_upper(s[i + k]) != word.get_char(k) {
            return false;
        }
        k += 1;
    }
    true
}

} // verus!
