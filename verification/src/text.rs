//! Text utilities: exact character-level models for the string handling
//! the shell, firmware and filesystem do — decimal rendering, trimming,
//! command-chain and word splitting.

use vstd::prelude::*;

verus! {

/// Relies on std's `String::push`: appends exactly one character.
#[verifier::external_body]
pub fn push_char(s: &mut String, c: char)
    ensures
        final(s)@ == old(s)@.push(c),
{
    s.push(c);
}

/// Relies on std's `String::pop`: removes and returns the last
/// character, if any.
#[verifier::external_body]
pub fn pop_char(s: &mut String) -> (r: Option<char>)
    ensures
        old(s)@.len() > 0 ==> final(s)@ == old(s)@.drop_last() && r == Some(old(s)@.last()),
        old(s)@.len() == 0 ==> final(s)@ == old(s)@ && r is None,
{
    s.pop()
}

/// The characters of `s`, one by one.
pub fn str_to_chars(s: &str) -> (v: Vec<char>)
    ensures
        v@ == s@,
{
    let n = s.unicode_len();
    let mut v: Vec<char> = Vec::new();
    let mut i: usize = 0;
    while i < n
        invariant
            n == s@.len(),
            i <= n,
            v@ == s@.subrange(0, i as int),
        decreases n - i,
    {
        v.push(s.get_char(i));
        assert(v@ =~= s@.subrange(0, i + 1));
        i = i + 1;
    }
    assert(v@ =~= s@);
    v
}

/// A string holding exactly the characters of `v`.
pub fn chars_to_string(v: &Vec<char>) -> (s: String)
    ensures
        s@ == v@,
{
    let mut s = String::new();
    let mut i: usize = 0;
    while i < v.len()
        invariant
            i <= v@.len(),
            s@ == v@.subrange(0, i as int),
        decreases v@.len() - i,
    {
        push_char(&mut s, v[i]);
        assert(s@ =~= v@.subrange(0, i + 1));
        i = i + 1;
    }
    assert(s@ =~= v@);
    s
}

/// Character-for-character string equality.
pub fn str_eq(a: &str, b: &str) -> (r: bool)
    ensures
        r == (a@ == b@),
{
    let na = a.unicode_len();
    let nb = b.unicode_len();
    if na != nb {
        assert(a@ != b@);
        return false;
    }
    let mut i: usize = 0;
    while i < na
        invariant
            na == a@.len(),
            na == b@.len(),
            i <= na,
            forall|j: int| 0 <= j < i ==> a@[j] == b@[j],
        decreases na - i,
    {
        if a.get_char(i) != b.get_char(i) {
            assert(a@ != b@);
            return false;
        }
        i = i + 1;
    }
    assert(a@ =~= b@);
    true
}

/// Character-for-character equality of a character vector and a string.
pub fn chars_eq_str(v: &Vec<char>, s: &str) -> (r: bool)
    ensures
        r == (v@ == s@),
{
    let n = s.unicode_len();
    if v.len() != n {
        assert(v@ != s@);
        return false;
    }
    let mut i: usize = 0;
    while i < n
        invariant
            n == s@.len(),
            n == v@.len(),
            i <= n,
            forall|j: int| 0 <= j < i ==> v@[j] == s@[j],
        decreases n - i,
    {
        if v[i] != s.get_char(i) {
            assert(v@ != s@);
            return false;
        }
        i = i + 1;
    }
    assert(v@ =~= s@);
    true
}

/// The decimal digit character for `d`.
pub open spec fn spec_digit_char(d: int) -> char {
    ((48 + d) as u8) as char
}

/// The decimal digits of `n`, most significant first.
pub open spec fn spec_dec_digits(n: int) -> Seq<char>
    decreases n,
{
    if n < 10 {
        seq![spec_digit_char(if n < 0 {
            0
        } else {
            n
        })]
    } else {
        spec_dec_digits(n / 10).push(spec_digit_char(n % 10))
    }
}

/// Append the decimal rendering of `n` to `s`.
pub fn push_dec(s: &mut String, n: u64)
    ensures
        final(s)@ == old(s)@ + spec_dec_digits(n as int),
    decreases n,
{
    if n < 10 {
        push_char(s, (48 + (n as u8)) as char);
        assert(final(s)@ =~= old(s)@ + spec_dec_digits(n as int));
    } else {
        push_dec(s, n / 10);
        push_char(s, (48 + ((n % 10) as u8)) as char);
        assert(final(s)@ =~= old(s)@ + spec_dec_digits(n as int));
    }
}

/// The decimal rendering of `n`.
pub fn dec_string(n: u64) -> (s: String)
    ensures
        s@ == spec_dec_digits(n as int),
{
    let mut s = String::new();
    push_dec(&mut s, n);
    assert(s@ =~= spec_dec_digits(n as int));
    s
}

/// ASCII whitespace, the kind the shell's tokenizer skips.
pub open spec fn spec_is_ws(c: char) -> bool {
    c == ' ' || c == '\t' || c == '\n' || c == '\r'
}

fn is_ws(c: char) -> (r: bool)
    ensures
        r == spec_is_ws(c),
{
    c == ' ' || c == '\t' || c == '\n' || c == '\r'
}

/// `s` with leading whitespace removed.
pub open spec fn spec_trim_front(s: Seq<char>) -> Seq<char>
    decreases s.len(),
{
    if s.len() > 0 && spec_is_ws(s[0]) {
        spec_trim_front(s.drop_first())
    } else {
        s
    }
}

/// `s` with trailing whitespace removed.
pub open spec fn spec_trim_back(s: Seq<char>) -> Seq<char>
    decreases s.len(),
{
    if s.len() > 0 && spec_is_ws(s[s.len() - 1]) {
        spec_trim_back(s.drop_last())
    } else {
        s
    }
}

/// `s` with whitespace removed from both ends.
pub open spec fn spec_trim(s: Seq<char>) -> Seq<char> {
    spec_trim_back(spec_trim_front(s))
}

fn trim_front_chars(v: Vec<char>) -> (r: Vec<char>)
    ensures
        r@ == spec_trim_front(v@),
    decreases v@.len(),
{
    if v.len() > 0 && is_ws(v[0]) {
        let ghost v0 = v@;
        let mut v = v;
        v.remove(0);
        assert(v@ =~= v0.drop_first());
        trim_front_chars(v)
    } else {
        v
    }
}

fn trim_back_chars(v: Vec<char>) -> (r: Vec<char>)
    ensures
        r@ == spec_trim_back(v@),
    decreases v@.len(),
{
    if v.len() > 0 && is_ws(v[v.len() - 1]) {
        let mut v = v;
        v.pop();
        trim_back_chars(v)
    } else {
        v
    }
}

/// The characters of `v` with whitespace removed from both ends.
pub fn trim_chars(v: Vec<char>) -> (r: Vec<char>)
    ensures
        r@ == spec_trim(v@),
{
    trim_back_chars(trim_front_chars(v))
}

/// The characters `v[from..to]`.
pub fn copy_range(v: &Vec<char>, from: usize, to: usize) -> (r: Vec<char>)
    requires
        from <= to <= v@.len(),
    ensures
        r@ == v@.subrange(from as int, to as int),
{
    let mut r: Vec<char> = Vec::new();
    let mut i: usize = from;
    while i < to
        invariant
            from <= i <= to <= v@.len(),
            r@ == v@.subrange(from as int, i as int),
        decreases to - i,
    {
        r.push(v[i]);
        assert(r@ =~= v@.subrange(from as int, i + 1));
        i = i + 1;
    }
    r
}

/// The position of the first `&&` at or after `from`, if any.
pub open spec fn spec_find_amp(s: Seq<char>, from: int) -> int
    decreases s.len() - from,
{
    if from < 0 || from + 2 > s.len() {
        -1
    } else if s[from] == '&' && s[from + 1] == '&' {
        from
    } else {
        spec_find_amp(s, from + 1)
    }
}

fn find_amp(v: &Vec<char>, from: usize) -> (r: Option<usize>)
    requires
        from <= v@.len(),
    ensures
        match r {
            Some(i) => spec_find_amp(v@, from as int) == i && from <= i && i + 2 <= v@.len(),
            None => spec_find_amp(v@, from as int) == -1,
        },
    decreases v@.len() - from,
{
    if v.len() < 2 || from > v.len() - 2 {
        None
    } else if v[from] == '&' && v[from + 1] == '&' {
        Some(from)
    } else {
        find_amp(v, from + 1)
    }
}

/// Where `spec_find_amp` finds a separator, it lies at or after `from`
/// and fits inside `s`.
pub proof fn lemma_find_amp_bounds(s: Seq<char>, from: int)
    requires
        0 <= from <= s.len(),
    ensures
        spec_find_amp(s, from) == -1 || (from <= spec_find_amp(s, from) && spec_find_amp(s, from)
            + 2 <= s.len()),
    decreases s.len() - from,
{
    if from + 2 <= s.len() && !(s[from] == '&' && s[from + 1] == '&') {
        lemma_find_amp_bounds(s, from + 1);
    }
}

#[via_fn]
proof fn split_chain_from_decreases(s: Seq<char>, from: int) {
    if 0 <= from <= s.len() {
        lemma_find_amp_bounds(s, from);
    }
}

/// The pieces of `s[from..]` split on `&&`, in order.
pub open spec fn spec_split_chain_from(s: Seq<char>, from: int) -> Seq<Seq<char>>
    decreases s.len() - from,
    via split_chain_from_decreases
{
    let i = spec_find_amp(s, from);
    if i == -1 || from < 0 || from > s.len() {
        seq![s.subrange(from, s.len() as int)]
    } else {
        seq![s.subrange(from, i)] + spec_split_chain_from(s, i + 2)
    }
}

/// The pieces of `s` split on `&&`, in order: the command chain.
pub open spec fn spec_split_chain(s: Seq<char>) -> Seq<Seq<char>> {
    spec_split_chain_from(s, 0)
}

fn split_chain_from(v: &Vec<char>, from: usize) -> (r: Vec<Vec<char>>)
    requires
        from <= v@.len(),
    ensures
        r@.map_values(|p: Vec<char>| p@) == spec_split_chain_from(v@, from as int),
    decreases v@.len() - from,
{
    match find_amp(v, from) {
        None => {
            let piece = copy_range(v, from, v.len());
            let mut r: Vec<Vec<char>> = Vec::new();
            r.push(piece);
            assert(r@.map_values(|p: Vec<char>| p@) =~= spec_split_chain_from(v@, from as int));
            r
        },
        Some(i) => {
            let n = v.len();
            let piece = copy_range(v, from, i);
            let mut r = split_chain_from(v, i + 2);
            let ghost rest0 = r@;
            r.insert(0, piece);
            proof {
                let f = |p: Vec<char>| p@;
                assert forall|j: int| 0 <= j < r@.len() implies #[trigger] r@.map_values(f)[j]
                    == spec_split_chain_from(v@, from as int)[j] by {
                    if j > 0 {
                        assert(r@[j] == rest0[j - 1]);
                        assert(rest0.map_values(f)[j - 1] == f(rest0[j - 1]));
                    }
                }
                assert(r@.map_values(f) =~= spec_split_chain_from(v@, from as int));
            }
            r
        },
    }
}

/// Split `v` on `&&` into the command chain, in order.
pub fn split_chain(v: &Vec<char>) -> (r: Vec<Vec<char>>)
    ensures
        r@.map_values(|p: Vec<char>| p@) == spec_split_chain(v@),
{
    split_chain_from(v, 0)
}

/// The position of the first whitespace at or after `from`, or the length.
pub open spec fn spec_find_ws(s: Seq<char>, from: int) -> int
    decreases s.len() - from,
{
    if from < 0 || from >= s.len() {
        s.len() as int
    } else if spec_is_ws(s[from]) {
        from
    } else {
        spec_find_ws(s, from + 1)
    }
}

/// The position of the first non-whitespace at or after `from`, or the
/// length.
pub open spec fn spec_find_non_ws(s: Seq<char>, from: int) -> int
    decreases s.len() - from,
{
    if from < 0 || from >= s.len() {
        s.len() as int
    } else if !spec_is_ws(s[from]) {
        from
    } else {
        spec_find_non_ws(s, from + 1)
    }
}

/// `spec_find_ws` stays inside `s` and never moves backwards.
pub proof fn lemma_find_ws_bounds(s: Seq<char>, from: int)
    requires
        0 <= from <= s.len(),
    ensures
        from <= spec_find_ws(s, from) <= s.len(),
        from < s.len() && !spec_is_ws(s[from]) ==> spec_find_ws(s, from) > from,
    decreases s.len() - from,
{
    if from < s.len() && !spec_is_ws(s[from]) {
        lemma_find_ws_bounds(s, from + 1);
    }
}

/// `spec_find_non_ws` stays inside `s` and never moves backwards.
pub proof fn lemma_find_non_ws_bounds(s: Seq<char>, from: int)
    requires
        0 <= from <= s.len(),
    ensures
        from <= spec_find_non_ws(s, from) <= s.len(),
        spec_find_non_ws(s, from) < s.len() ==> !spec_is_ws(s[spec_find_non_ws(s, from)]),
    decreases s.len() - from,
{
    if from < s.len() && spec_is_ws(s[from]) {
        lemma_find_non_ws_bounds(s, from + 1);
    }
}

#[via_fn]
proof fn words_from_decreases(s: Seq<char>, from: int) {
    if 0 <= from <= s.len() {
        lemma_find_non_ws_bounds(s, from);
        let start = spec_find_non_ws(s, from);
        if start < s.len() {
            lemma_find_ws_bounds(s, start);
        }
    }
}

/// The whitespace-separated words of `s[from..]`, in order.
pub open spec fn spec_words_from(s: Seq<char>, from: int) -> Seq<Seq<char>>
    decreases s.len() - from,
    via words_from_decreases
{
    let start = spec_find_non_ws(s, from);
    if start >= s.len() || from < 0 || from > s.len() {
        Seq::empty()
    } else {
        let end = spec_find_ws(s, start);
        seq![s.subrange(start, end)] + spec_words_from(s, end)
    }
}

/// The whitespace-separated words of `s`, in order.
pub open spec fn spec_words(s: Seq<char>) -> Seq<Seq<char>> {
    spec_words_from(s, 0)
}

fn find_ws(v: &Vec<char>, from: usize) -> (r: usize)
    requires
        from <= v@.len(),
    ensures
        r == spec_find_ws(v@, from as int),
        from <= r <= v@.len(),
        r < v@.len() ==> spec_is_ws(v@[r as int]),
    decreases v@.len() - from,
{
    if from >= v.len() {
        v.len()
    } else if is_ws(v[from]) {
        from
    } else {
        find_ws(v, from + 1)
    }
}

fn find_non_ws(v: &Vec<char>, from: usize) -> (r: usize)
    requires
        from <= v@.len(),
    ensures
        r == spec_find_non_ws(v@, from as int),
        from <= r <= v@.len(),
        r < v@.len() ==> !spec_is_ws(v@[r as int]),
    decreases v@.len() - from,
{
    if from >= v.len() {
        v.len()
    } else if !is_ws(v[from]) {
        from
    } else {
        find_non_ws(v, from + 1)
    }
}

fn words_from(v: &Vec<char>, from: usize) -> (r: Vec<Vec<char>>)
    requires
        from <= v@.len(),
    ensures
        r@.map_values(|p: Vec<char>| p@) == spec_words_from(v@, from as int),
    decreases v@.len() - from,
{
    let start = find_non_ws(v, from);
    if start >= v.len() {
        let r: Vec<Vec<char>> = Vec::new();
        assert(r@.map_values(|p: Vec<char>| p@) =~= spec_words_from(v@, from as int));
        r
    } else {
        let end = find_ws(v, start);
        let word = copy_range(v, start, end);
        proof {
            lemma_find_ws_bounds(v@, start as int);
        }
        let mut r = words_from(v, end);
        let ghost rest0 = r@;
        r.insert(0, word);
        proof {
            let f = |p: Vec<char>| p@;
            assert forall|j: int| 0 <= j < r@.len() implies #[trigger] r@.map_values(f)[j]
                == spec_words_from(v@, from as int)[j] by {
                if j > 0 {
                    assert(r@[j] == rest0[j - 1]);
                    assert(rest0.map_values(f)[j - 1] == f(rest0[j - 1]));
                }
            }
            assert(r@.map_values(f) =~= spec_words_from(v@, from as int));
        }
        r
    }
}

/// Split `v` into its whitespace-separated words, in order.
pub fn split_words(v: &Vec<char>) -> (r: Vec<Vec<char>>)
    ensures
        r@.map_values(|p: Vec<char>| p@) == spec_words(v@),
{
    words_from(v, 0)
}

/// The position of the first `/` at or after `from`, or the length.
pub open spec fn spec_find_slash(s: Seq<char>, from: int) -> int
    decreases s.len() - from,
{
    if from < 0 || from >= s.len() {
        s.len() as int
    } else if s[from] == '/' {
        from
    } else {
        spec_find_slash(s, from + 1)
    }
}

/// The position of the first non-`/` at or after `from`, or the length.
pub open spec fn spec_find_non_slash(s: Seq<char>, from: int) -> int
    decreases s.len() - from,
{
    if from < 0 || from >= s.len() {
        s.len() as int
    } else if s[from] != '/' {
        from
    } else {
        spec_find_non_slash(s, from + 1)
    }
}

/// The non-empty components of `s[from..]` split on `/`, in order.
pub open spec fn spec_path_components_from(s: Seq<char>, from: int) -> Seq<Seq<char>>
    decreases s.len() - from,
    via path_components_from_decreases
{
    let start = spec_find_non_slash(s, from);
    if start >= s.len() || from < 0 || from > s.len() {
        Seq::empty()
    } else {
        let end = spec_find_slash(s, start);
        seq![s.subrange(start, end)] + spec_path_components_from(s, end)
    }
}

/// `spec_find_slash` stays inside `s` and never moves backwards.
pub proof fn lemma_find_slash_bounds(s: Seq<char>, from: int)
    requires
        0 <= from <= s.len(),
    ensures
        from <= spec_find_slash(s, from) <= s.len(),
        from < s.len() && s[from] != '/' ==> spec_find_slash(s, from) > from,
    decreases s.len() - from,
{
    if from < s.len() && s[from] != '/' {
        lemma_find_slash_bounds(s, from + 1);
    }
}

/// `spec_find_non_slash` stays inside `s` and never moves backwards.
pub proof fn lemma_find_non_slash_bounds(s: Seq<char>, from: int)
    requires
        0 <= from <= s.len(),
    ensures
        from <= spec_find_non_slash(s, from) <= s.len(),
        spec_find_non_slash(s, from) < s.len() ==> s[spec_find_non_slash(s, from)] != '/',
    decreases s.len() - from,
{
    if from < s.len() && s[from] == '/' {
        lemma_find_non_slash_bounds(s, from + 1);
    }
}

#[via_fn]
proof fn path_components_from_decreases(s: Seq<char>, from: int) {
    if 0 <= from <= s.len() {
        lemma_find_non_slash_bounds(s, from);
        let start = spec_find_non_slash(s, from);
        if start < s.len() {
            lemma_find_slash_bounds(s, start);
        }
    }
}

/// The non-empty components of `s` split on `/`, in order.
pub open spec fn spec_path_components(s: Seq<char>) -> Seq<Seq<char>> {
    spec_path_components_from(s, 0)
}

fn find_slash(v: &Vec<char>, from: usize) -> (r: usize)
    requires
        from <= v@.len(),
    ensures
        r == spec_find_slash(v@, from as int),
        from <= r <= v@.len(),
    decreases v@.len() - from,
{
    if from >= v.len() {
        v.len()
    } else if v[from] == '/' {
        from
    } else {
        find_slash(v, from + 1)
    }
}

fn find_non_slash(v: &Vec<char>, from: usize) -> (r: usize)
    requires
        from <= v@.len(),
    ensures
        r == spec_find_non_slash(v@, from as int),
        from <= r <= v@.len(),
        r < v@.len() ==> v@[r as int] != '/',
    decreases v@.len() - from,
{
    if from >= v.len() {
        v.len()
    } else if v[from] != '/' {
        from
    } else {
        find_non_slash(v, from + 1)
    }
}

fn path_components_from(v: &Vec<char>, from: usize) -> (r: Vec<Vec<char>>)
    requires
        from <= v@.len(),
    ensures
        r@.map_values(|p: Vec<char>| p@) == spec_path_components_from(v@, from as int),
    decreases v@.len() - from,
{
    let start = find_non_slash(v, from);
    if start >= v.len() {
        let r: Vec<Vec<char>> = Vec::new();
        assert(r@.map_values(|p: Vec<char>| p@) =~= spec_path_components_from(v@, from as int));
        r
    } else {
        let end = find_slash(v, start);
        let comp = copy_range(v, start, end);
        proof {
            lemma_find_slash_bounds(v@, start as int);
        }
        let mut r = path_components_from(v, end);
        let ghost rest0 = r@;
        r.insert(0, comp);
        proof {
            let f = |p: Vec<char>| p@;
            assert forall|j: int| 0 <= j < r@.len() implies #[trigger] r@.map_values(f)[j]
                == spec_path_components_from(v@, from as int)[j] by {
                if j > 0 {
                    assert(r@[j] == rest0[j - 1]);
                    assert(rest0.map_values(f)[j - 1] == f(rest0[j - 1]));
                }
            }
            assert(r@.map_values(f) =~= spec_path_components_from(v@, from as int));
        }
        r
    }
}

/// Split `v` into its non-empty `/`-separated components, in order.
pub fn path_components(v: &Vec<char>) -> (r: Vec<Vec<char>>)
    ensures
        r@.map_values(|p: Vec<char>| p@) == spec_path_components(v@),
{
    path_components_from(v, 0)
}

} // verus!
