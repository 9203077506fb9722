//! Character-level text utilities: ASCII case folding, whitespace splitting,
//! and the tokenizer that turns free-form player input into lowercase words.
use vstd::prelude::*;
use vstd::string::*;

verus! {

/// ASCII case folding: uppercase letters map to lowercase, all else unchanged.
pub open spec fn lower_char(c: char) -> char {
    if 65 <= c as u32 && c as u32 <= 90 {
        ((c as u32 + 32) as char)
    } else {
        c
    }
}

/// The whitespace characters recognized by the tokenizer.
pub open spec fn is_space_char(c: char) -> bool {
    c == ' ' || c == '\t' || c == '\n' || c == '\r'
}

/// Case folding applied to a whole character sequence.
pub open spec fn lower_seq(s: Seq<char>) -> Seq<char> {
    s.map_values(|c: char| lower_char(c))
}

/// Views of a sequence of character vectors.
pub open spec fn views_of(v: Seq<Vec<char>>) -> Seq<Seq<char>> {
    v.map_values(|t: Vec<char>| t@)
}

/// Index of the first whitespace character at or after `i` (or the length of
/// `s` when the rest of `s` is one word).
pub open spec fn word_end(s: Seq<char>, i: nat) -> nat
    decreases s.len() - i,
{
    if i >= s.len() || is_space_char(s[i as int]) {
        i
    } else {
        word_end(s, (i + 1) as nat)
    }
}

pub proof fn lemma_word_end_bounds(s: Seq<char>, i: nat)
    requires
        i <= s.len(),
    ensures
        i <= word_end(s, i) <= s.len(),
        forall|k: int| i <= k < word_end(s, i) ==> !is_space_char(s[k]),
        word_end(s, i) < s.len() ==> is_space_char(s[word_end(s, i) as int]),
    decreases s.len() - i,
{
    if i < s.len() && !is_space_char(s[i as int]) {
        lemma_word_end_bounds(s, (i + 1) as nat);
    }
}

/// The tokens of `s` starting at position `i`: maximal whitespace-free runs,
/// case folded.
pub open spec fn tokens_from(s: Seq<char>, i: nat) -> Seq<Seq<char>>
    decreases s.len() - i,
    via tokens_from_decreases
{
    if i >= s.len() {
        Seq::empty()
    } else if is_space_char(s[i as int]) {
        tokens_from(s, (i + 1) as nat)
    } else {
        seq![lower_seq(s.subrange(i as int, word_end(s, i) as int))] + tokens_from(
            s,
            word_end(s, i),
        )
    }
}

#[via_fn]
proof fn tokens_from_decreases(s: Seq<char>, i: nat) {
    if i < s.len() && !is_space_char(s[i as int]) {
        lemma_word_end_bounds(s, i);
    }
}

/// A sequence of `k` characters splits into at most `k` tokens.
pub proof fn lemma_tokens_from_len(s: Seq<char>, i: nat)
    requires
        i <= s.len(),
    ensures
        tokens_from(s, i).len() <= s.len() - i,
    decreases s.len() - i,
{
    if i < s.len() {
        if is_space_char(s[i as int]) {
            lemma_tokens_from_len(s, (i + 1) as nat);
        } else {
            lemma_word_end_bounds(s, i);
            lemma_tokens_from_len(s, word_end(s, i));
        }
    }
}

/// What the tokenizer produces: lowercase whitespace-separated words.
pub open spec fn spec_tokenize(s: Seq<char>) -> Seq<Seq<char>> {
    tokens_from(s, 0)
}

pub proof fn lemma_views_push(v: Seq<Vec<char>>, w: Vec<char>)
    ensures
        views_of(v.push(w)) == views_of(v).push(w@),
{
    assert(views_of(v.push(w)) =~= views_of(v).push(w@));
}

/// Case-folds one character.
pub fn to_lower_char(c: char) -> (r: char)
    ensures
        r == lower_char(c),
{
    let u = c as u32;
    if 65 <= u && u <= 90 {
        let b: u8 = (u + 32) as u8;
        b as char
    } else {
        c
    }
}

/// Recognizes the whitespace characters the tokenizer splits on.
pub fn is_space(c: char) -> (r: bool)
    ensures
        r == is_space_char(c),
{
    c == ' ' || c == '\t' || c == '\n' || c == '\r'
}

/// The characters of a string slice, in order.
pub fn chars_of(s: &str) -> (r: Vec<char>)
    ensures
        r@ == s@,
{
    let n = s.unicode_len();
    let mut r: Vec<char> = Vec::new();
    let mut i: usize = 0;
    while i < n
        invariant
            i <= n,
            n == s@.len(),
            r@ == s@.subrange(0, i as int),
        decreases n - i,
    {
        r.push(s.get_char(i));
        assert(r@ =~= s@.subrange(0, i + 1));
        i += 1;
    }
    assert(r@ =~= s@);
    r
}

/// Splits a character sequence into lowercase whitespace-separated tokens.
pub fn tokenize_chars(s: &Vec<char>) -> (r: Vec<Vec<char>>)
    ensures
        views_of(r@) == spec_tokenize(s@),
{
    let n = s.len();
    let mut r: Vec<Vec<char>> = Vec::new();
    let mut i: usize = 0;
    while i < n
        invariant
            i <= n,
            n == s@.len(),
            spec_tokenize(s@) == views_of(r@) + tokens_from(s@, i as nat),
        decreases n - i,
    {
        if is_space(s[i]) {
            i += 1;
        } else {
            let ghost i0 = i as nat;
            let mut word: Vec<char> = Vec::new();
            let mut j: usize = i;
            while j < n && !is_space(s[j])
                invariant
                    i0 <= j <= n,
                    n == s@.len(),
                    word_end(s@, j as nat) == word_end(s@, i0),
                    word@ == lower_seq(s@.subrange(i0 as int, j as int)),
                decreases n - j,
            {
                word.push(to_lower_char(s[j]));
                assert(word@ =~= lower_seq(s@.subrange(i0 as int, j + 1)));
                j += 1;
            }
            assert(word_end(s@, j as nat) == j as nat);
            proof {
                lemma_views_push(r@, word);
            }
            assert(seq![word@] + tokens_from(s@, j as nat) == tokens_from(s@, i0)) by {
                assert(tokens_from(s@, i0) == seq![
                    lower_seq(s@.subrange(i0 as int, word_end(s@, i0) as int)),
                ] + tokens_from(s@, word_end(s@, i0)));
            }
            r.push(word);
            assert(views_of(r@) + tokens_from(s@, j as nat) =~= spec_tokenize(s@));
            i = j;
        }
    }
    assert(views_of(r@) =~= spec_tokenize(s@));
    r
}

/// Tokenizes a string slice: lowercase whitespace-separated words.
pub fn tokenize(s: &str) -> (r: Vec<Vec<char>>)
    ensures
        views_of(r@) == spec_tokenize(s@),
{
    let cs = chars_of(s);
    tokenize_chars(&cs)
}

/// Character-vector equality.
pub fn eq_chars(a: &Vec<char>, b: &Vec<char>) -> (r: bool)
    ensures
        r == (a@ == b@),
{
    if a.len() != b.len() {
        assert(a@ != b@);
        return false;
    }
    let n = a.len();
    let mut i: usize = 0;
    while i < n
        invariant
            i <= n,
            n == a@.len() == b@.len(),
            forall|k: int| 0 <= k < i ==> a@[k] == b@[k],
        decreases n - i,
    {
        if a[i] != b[i] {
            return false;
        }
        i += 1;
    }
    assert(a@ =~= b@);
    true
}

/// First index at or after `i` holding a non-whitespace character (or the
/// length of `s`).
pub open spec fn first_non_space(s: Seq<char>, i: nat) -> nat
    decreases s.len() - i,
{
    if i >= s.len() || !is_space_char(s[i as int]) {
        i
    } else {
        first_non_space(s, (i + 1) as nat)
    }
}

/// One past the last non-whitespace character strictly before `j` (or 0).
pub open spec fn trim_end_idx(s: Seq<char>, j: nat) -> nat
    decreases j,
{
    if j == 0 || !is_space_char(s[j - 1]) {
        j
    } else {
        trim_end_idx(s, (j - 1) as nat)
    }
}

/// The sequence with leading and trailing whitespace removed.
pub open spec fn spec_trim(s: Seq<char>) -> Seq<char> {
    if spec_blank(s) {
        Seq::empty()
    } else {
        s.subrange(first_non_space(s, 0) as int, trim_end_idx(s, s.len()) as int)
    }
}

pub proof fn lemma_first_non_space(s: Seq<char>, i: nat)
    requires
        i <= s.len(),
    ensures
        i <= first_non_space(s, i) <= s.len(),
        first_non_space(s, i) < s.len() ==> !is_space_char(s[first_non_space(s, i) as int]),
        forall|k: int| i <= k < first_non_space(s, i) ==> is_space_char(s[k]),
    decreases s.len() - i,
{
    if i < s.len() && is_space_char(s[i as int]) {
        lemma_first_non_space(s, (i + 1) as nat);
    }
}

pub proof fn lemma_trim_end(s: Seq<char>, j: nat)
    requires
        j <= s.len(),
    ensures
        trim_end_idx(s, j) <= j,
        trim_end_idx(s, j) > 0 ==> !is_space_char(s[trim_end_idx(s, j) - 1]),
        forall|k: int| trim_end_idx(s, j) <= k < j ==> is_space_char(s[k]),
    decreases j,
{
    if j > 0 && is_space_char(s[j - 1]) {
        lemma_trim_end(s, (j - 1) as nat);
    }
}

pub proof fn lemma_trim_bounds(s: Seq<char>)
    requires
        !spec_blank(s),
    ensures
        first_non_space(s, 0) < trim_end_idx(s, s.len()) <= s.len(),
{
    let k = choose|k: int| 0 <= k < s.len() && !is_space_char(s[k]);
    lemma_first_non_space(s, 0);
    lemma_trim_end(s, s.len());
    if first_non_space(s, 0) > k {
        assert(is_space_char(s[k]));
    }
    if trim_end_idx(s, s.len()) <= k {
        assert(is_space_char(s[k]));
    }
}

/// Removes leading and trailing whitespace.
pub fn trim_str(s: &str) -> (r: &str)
    ensures
        r@ == spec_trim(s@),
{
    let n = s.unicode_len();
    let mut a: usize = 0;
    while a < n && is_space(s.get_char(a))
        invariant
            a <= n,
            n == s@.len(),
            first_non_space(s@, 0) == first_non_space(s@, a as nat),
        decreases n - a,
    {
        a += 1;
    }
    if a == n {
        assert(spec_blank(s@)) by {
            lemma_first_non_space(s@, 0);
        }
        let r = s.substring_char(0, 0);
        assert(r@ =~= spec_trim(s@));
        r
    } else {
        assert(!is_space_char(s@[a as int]));
        assert(!spec_blank(s@));
        let mut b: usize = n;
        while b > 0 && is_space(s.get_char(b - 1))
            invariant
                a < b,
                b <= n,
                n == s@.len(),
                !is_space_char(s@[a as int]),
                trim_end_idx(s@, n as nat) == trim_end_idx(s@, b as nat),
            decreases b,
        {
            proof {
                if b - 1 == a {
                    assert(is_space_char(s@[a as int]));
                }
            }
            b -= 1;
        }
        proof {
            lemma_trim_bounds(s@);
        }
        s.substring_char(a, b)
    }
}

/// Whether any string in the list has the given view.
pub open spec fn seq_contains_str(v: Seq<String>, x: Seq<char>) -> bool {
    exists|i: int| 0 <= i < v.len() && v[i]@ == x
}

/// Whether any string in the list equals `x`.
pub fn str_list_contains(v: &Vec<String>, x: &str) -> (r: bool)
    ensures
        r == seq_contains_str(v@, x@),
{
    let n = v.len();
    let mut i: usize = 0;
    while i < n
        invariant
            i <= n,
            n == v@.len(),
            forall|k: int| 0 <= k < i ==> v@[k]@ != x@,
        decreases n - i,
    {
        if str_eq(v[i].as_str(), x) {
            assert(v@[i as int]@ == x@);
            return true;
        }
        i += 1;
    }
    false
}

/// String-slice equality, by characters.
pub fn str_eq(a: &str, b: &str) -> (r: bool)
    ensures
        r == (a@ == b@),
{
    let na = a.unicode_len();
    let nb = b.unicode_len();
    if na != nb {
        assert(a@ != b@);
        return false;
    }
    let mut i: usize = 0;
    while i < na
        invariant
            i <= na,
            na == a@.len() == b@.len(),
            forall|k: int| 0 <= k < i ==> a@[k] == b@[k],
        decreases na - i,
    {
        if a.get_char(i) != b.get_char(i) {
            return false;
        }
        i += 1;
    }
    assert(a@ =~= b@);
    true
}

/// Relies on String::push: appends exactly the one character to the string.
#[verifier::external_body]
pub fn push_char(s: &mut String, c: char)
    ensures
        final(s)@ == old(s)@.push(c),
{
    s.push(c);
}

/// The string case folded, character by character.
pub fn lower_str(s: &str) -> (r: String)
    ensures
        r@ == lower_seq(s@),
{
    let n = s.unicode_len();
    let mut r = String::new();
    let mut i: usize = 0;
    while i < n
        invariant
            i <= n,
            n == s@.len(),
            r@ == lower_seq(s@.take(i as int)),
        decreases n - i,
    {
        push_char(&mut r, to_lower_char(s.get_char(i)));
        assert(r@ =~= lower_seq(s@.take(i + 1)));
        i += 1;
    }
    assert(s@.take(n as int) =~= s@);
    r
}

/// The first whitespace-separated word of a string, in its original case
/// (empty when the string is blank).
pub fn raw_first_token(s: &str) -> (r: &str)
    ensures
        r@ == s@.subrange(
            first_non_space(s@, 0) as int,
            word_end(s@, first_non_space(s@, 0)) as int,
        ),
{
    let n = s.unicode_len();
    let mut a: usize = 0;
    while a < n && is_space(s.get_char(a))
        invariant
            a <= n,
            n == s@.len(),
            first_non_space(s@, 0) == first_non_space(s@, a as nat),
        decreases n - a,
    {
        a += 1;
    }
    assert(first_non_space(s@, 0) == a as nat);
    let mut b: usize = a;
    while b < n && !is_space(s.get_char(b))
        invariant
            a <= b <= n,
            n == s@.len(),
            word_end(s@, a as nat) == word_end(s@, b as nat),
        decreases n - b,
    {
        b += 1;
    }
    assert(word_end(s@, b as nat) == b as nat);
    s.substring_char(a, b)
}

/// The token's characters as a string.
pub fn token_to_string(t: &Vec<char>) -> (r: String)
    ensures
        r@ == t@,
{
    let n = t.len();
    let mut r = String::new();
    let mut i: usize = 0;
    while i < n
        invariant
            i <= n,
            n == t@.len(),
            r@ == t@.take(i as int),
        decreases n - i,
    {
        push_char(&mut r, t[i]);
        assert(r@ =~= t@.take(i + 1));
        i += 1;
    }
    assert(t@.take(n as int) =~= t@);
    r
}

/// Case-insensitive string equality (ASCII case folding).
pub fn eq_ignore_case(a: &str, b: &str) -> (r: bool)
    ensures
        r == (lower_seq(a@) == lower_seq(b@)),
{
    let na = a.unicode_len();
    let nb = b.unicode_len();
    if na != nb {
        assert(lower_seq(a@).len() != lower_seq(b@).len());
        return false;
    }
    let mut i: usize = 0;
    while i < na
        invariant
            i <= na,
            na == a@.len() == b@.len(),
            forall|k: int| 0 <= k < i ==> lower_seq(a@)[k] == lower_seq(b@)[k],
        decreases na - i,
    {
        if to_lower_char(a.get_char(i)) != to_lower_char(b.get_char(i)) {
            assert(lower_seq(a@)[i as int] != lower_seq(b@)[i as int]);
            return false;
        }
        i += 1;
    }
    assert(lower_seq(a@) =~= lower_seq(b@));
    true
}

/// Case-insensitive equality between a character vector and a string slice.
pub fn chars_eq_str_nocase(t: &Vec<char>, s: &str) -> (r: bool)
    ensures
        r == (lower_seq(t@) == lower_seq(s@)),
{
    let n = t.len();
    if n != s.unicode_len() {
        assert(lower_seq(t@).len() != lower_seq(s@).len());
        return false;
    }
    let mut i: usize = 0;
    while i < n
        invariant
            i <= n,
            n == t@.len() == s@.len(),
            forall|k: int| 0 <= k < i ==> lower_seq(t@)[k] == lower_seq(s@)[k],
        decreases n - i,
    {
        if to_lower_char(t[i]) != to_lower_char(s.get_char(i)) {
            assert(lower_seq(t@)[i as int] != lower_seq(s@)[i as int]);
            return false;
        }
        i += 1;
    }
    assert(lower_seq(t@) =~= lower_seq(s@));
    true
}

/// A sequence is blank when every character in it is whitespace.
pub open spec fn spec_blank(s: Seq<char>) -> bool {
    forall|i: int| 0 <= i < s.len() ==> is_space_char(s[i])
}

/// Whether a string consists of whitespace only (or is empty).
pub fn is_blank_str(s: &str) -> (r: bool)
    ensures
        r == spec_blank(s@),
{
    let n = s.unicode_len();
    let mut i: usize = 0;
    while i < n
        invariant
            i <= n,
            n == s@.len(),
            forall|k: int| 0 <= k < i ==> is_space_char(s@[k]),
        decreases n - i,
    {
        if !is_space(s.get_char(i)) {
            return false;
        }
        i += 1;
    }
    true
}

/// Whether `w` occurs among `tokens`.
pub fn contains_token(tokens: &Vec<Vec<char>>, w: &Vec<char>) -> (r: bool)
    ensures
        r == views_of(tokens@).contains(w@),
{
    let n = tokens.len();
    let mut i: usize = 0;
    while i < n
        invariant
            i <= n,
            n == tokens@.len(),
            forall|k: int| 0 <= k < i ==> views_of(tokens@)[k] != w@,
        decreases n - i,
    {
        if eq_chars(&tokens[i], w) {
            assert(views_of(tokens@)[i as int] == w@);
            return true;
        }
        i += 1;
    }
    false
}

} // verus!
