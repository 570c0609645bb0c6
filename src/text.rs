//! Character classes, trimming, splitting and searching over character sequences.
use vstd::prelude::*;

verus! {

/// Unicode `White_Space`, as `char::is_whitespace` and `str::trim` use it.
pub open spec fn is_white(c: char) -> bool {
    let u = c as u32;
    (0x09 <= u && u <= 0x0D) || u == 0x20 || u == 0x85 || u == 0xA0 || u == 0x1680 || (0x2000 <= u
        && u <= 0x200A) || u == 0x2028 || u == 0x2029 || u == 0x202F || u == 0x205F || u == 0x3000
}

/// The symbols stripped around element and attribute names.
pub open spec fn is_clean_symbol(c: char) -> bool {
    c == '\n' || c == ' ' || c == '<' || c == '>' || c == '/'
}

/// The characters that end an attribute token (kept at the end of the token).
pub open spec fn is_prop_delim(c: char) -> bool {
    c == ' ' || c == '>' || c == '\n'
}

/// The class a trim removes: name symbols when `clean`, whitespace otherwise.
pub open spec fn strip_char(c: char, clean: bool) -> bool {
    if clean {
        is_clean_symbol(c)
    } else {
        is_white(c)
    }
}

/// First index at or after `i` whose character is not stripped.
pub open spec fn strip_from(s: Seq<char>, clean: bool, i: int) -> int
    decreases s.len() - i,
{
    if 0 <= i < s.len() && strip_char(s[i], clean) {
        strip_from(s, clean, i + 1)
    } else {
        i
    }
}

/// End of `s[lo..j]` once stripped characters are removed from its back.
pub open spec fn strip_to(s: Seq<char>, clean: bool, lo: int, j: int) -> int
    decreases j - lo,
{
    if lo < j && j <= s.len() && strip_char(s[j - 1], clean) {
        strip_to(s, clean, lo, j - 1)
    } else {
        j
    }
}

/// `s` without the stripped characters at both ends.
pub open spec fn strip(s: Seq<char>, clean: bool) -> Seq<char> {
    let a = strip_from(s, clean, 0);
    s.subrange(a, strip_to(s, clean, a, s.len() as int))
}

/// `str::trim`: whitespace removed at both ends.
pub open spec fn trimmed(s: Seq<char>) -> Seq<char> {
    strip(s, false)
}

/// `s` with `\n`, space, `<`, `>` and `/` removed at both ends.
pub open spec fn cleaned(s: Seq<char>) -> Seq<char> {
    strip(s, true)
}

/// Index of the first `c` at or after `i`, or `s.len()` when there is none.
pub open spec fn find_char(s: Seq<char>, c: char, i: int) -> int
    decreases s.len() - i,
{
    if i < 0 || i >= s.len() {
        s.len() as int
    } else if s[i] == c {
        i
    } else {
        find_char(s, c, i + 1)
    }
}

/// Index of the first occurrence of `pat` at or after `i`, or -1 when there is none.
pub open spec fn find_seq(s: Seq<char>, pat: Seq<char>, i: int) -> int
    decreases s.len() + 1 - i,
{
    if i < 0 || i + pat.len() > s.len() {
        -1
    } else if s.subrange(i, i + pat.len()) == pat {
        i
    } else {
        find_seq(s, pat, i + 1)
    }
}

/// `s` with the first occurrence of `pat` taken out (unchanged when there is none).
pub open spec fn remove_first(s: Seq<char>, pat: Seq<char>) -> Seq<char> {
    let k = find_seq(s, pat, 0);
    if k < 0 {
        s
    } else {
        s.take(k) + s.skip(k + pat.len())
    }
}

/// Number of occurrences of `c` in `s`.
pub open spec fn count_char(s: Seq<char>, c: char) -> nat
    decreases s.len(),
{
    if s.len() == 0 {
        0
    } else {
        count_char(s.drop_last(), c) + if s.last() == c {
            1nat
        } else {
            0nat
        }
    }
}

/// The pieces of `s` between `<` characters, as `str::split('<')` yields them.
pub open spec fn tag_split(s: Seq<char>) -> Seq<Seq<char>>
    decreases s.len(),
{
    if s.len() == 0 {
        seq![Seq::empty()]
    } else {
        let p = tag_split(s.drop_last());
        if s.last() == '<' {
            p.push(Seq::empty())
        } else {
            p.update(p.len() - 1, p.last().push(s.last()))
        }
    }
}

/// The tokens of `s`, each ending after a space, `>` or newline (the last one
/// possibly without), as `str::split_inclusive` yields them.
pub open spec fn prop_tokens(s: Seq<char>) -> Seq<Seq<char>>
    decreases s.len(),
{
    if s.len() == 0 {
        Seq::empty()
    } else {
        let p = prop_tokens(s.drop_last());
        if p.len() == 0 || is_prop_delim(p.last().last()) {
            p.push(seq![s.last()])
        } else {
            p.update(p.len() - 1, p.last().push(s.last()))
        }
    }
}

/// The pieces joined back together with `<` between each two.
pub open spec fn join_lt(p: Seq<Seq<char>>) -> Seq<char>
    decreases p.len(),
{
    if p.len() == 0 {
        Seq::empty()
    } else if p.len() == 1 {
        p[0]
    } else {
        join_lt(p.drop_last()) + seq!['<'] + p.last()
    }
}

/// The views of a sequence of strings.
pub open spec fn views(v: Seq<String>) -> Seq<Seq<char>> {
    v.map_values(|x: String| x@)
}

/// A split always has at least one piece.
pub proof fn lemma_tag_split_nonempty(s: Seq<char>)
    ensures
        tag_split(s).len() >= 1,
    decreases s.len(),
{
    if s.len() > 0 {
        lemma_tag_split_nonempty(s.drop_last());
    }
}

/// Joining the pieces of a split gives the text back.
pub proof fn lemma_join_tag_split(s: Seq<char>)
    ensures
        join_lt(tag_split(s)) == s,
    decreases s.len(),
{
    if s.len() > 0 {
        let t = s.drop_last();
        lemma_join_tag_split(t);
        lemma_tag_split_nonempty(t);
        let p = tag_split(t);
        if s.last() == '<' {
            assert(p.push(Seq::empty()).drop_last() =~= p);
            assert(s =~= t + seq!['<'] + Seq::empty());
        } else {
            let q = p.update(p.len() - 1, p.last().push(s.last()));
            if p.len() == 1 {
                assert(s =~= p[0].push(s.last()));
            } else {
                assert(q.drop_last() =~= p.drop_last());
                assert(join_lt(p) == join_lt(p.drop_last()) + seq!['<'] + p.last());
                assert(s =~= t.push(s.last()));
                assert(s =~= join_lt(p.drop_last()) + seq!['<'] + q.last());
            }
        }
    }
}

/// Text without `<` splits into the one piece that is the whole text.
pub proof fn lemma_tag_split_no_lt(s: Seq<char>)
    requires
        forall|i: int| 0 <= i < s.len() ==> s[i] != '<',
    ensures
        tag_split(s) == seq![s],
    decreases s.len(),
{
    if s.len() > 0 {
        let t = s.drop_last();
        lemma_tag_split_no_lt(t);
        assert(t.push(s.last()) =~= s);
        assert(tag_split(s) =~= seq![s]);
    } else {
        assert(s =~= Seq::<char>::empty());
        assert(tag_split(s) =~= seq![s]);
    }
}

/// Every token is non-empty.
pub proof fn lemma_prop_tokens_nonempty(s: Seq<char>)
    ensures
        forall|i: int| 0 <= i < prop_tokens(s).len() ==> #[trigger] prop_tokens(s)[i].len() > 0,
    decreases s.len(),
{
    if s.len() > 0 {
        let p = prop_tokens(s.drop_last());
        lemma_prop_tokens_nonempty(s.drop_last());
        assert forall|i: int| 0 <= i < prop_tokens(s).len() implies #[trigger] prop_tokens(
            s,
        )[i].len() > 0 by {
            if i < p.len() {
                assert(p[i].len() > 0);
            }
        }
    }
}

/// Relies on `String::push`: the character is added at the end.
#[verifier::external_body]
pub(crate) fn push_char(s: &mut String, c: char)
    ensures
        final(s)@ == old(s)@.push(c),
{
    s.push(c)
}

/// The characters of `s`, in order.
pub fn chars_of(s: &str) -> (r: Vec<char>)
    ensures
        r@ == s@,
{
    let mut r: Vec<char> = Vec::new();
    for c in it: s.chars()
        invariant
            r@ == it.seq().take(it.index()),
    {
        r.push(c);
    }
    r
}

/// A string holding the characters `s[lo..hi]`.
pub fn string_of_range(s: &Vec<char>, lo: usize, hi: usize) -> (r: String)
    requires
        lo <= hi <= s.len(),
    ensures
        r@ == s@.subrange(lo as int, hi as int),
{
    let mut r = String::new();
    let mut i: usize = lo;
    while i < hi
        invariant
            lo <= i <= hi <= s.len(),
            r@ == s@.subrange(lo as int, i as int),
        decreases hi - i,
    {
        push_char(&mut r, s[i]);
        assert(s@.subrange(lo as int, i + 1) =~= s@.subrange(lo as int, i as int).push(s@[i as int]));
        i = i + 1;
    }
    r
}

/// Executable `is_white`.
pub fn is_white_char(c: char) -> (r: bool)
    ensures
        r == is_white(c),
{
    let u = c as u32;
    (0x09 <= u && u <= 0x0D) || u == 0x20 || u == 0x85 || u == 0xA0 || u == 0x1680 || (0x2000 <= u
        && u <= 0x200A) || u == 0x2028 || u == 0x2029 || u == 0x202F || u == 0x205F || u == 0x3000
}

fn strip_char_exec(c: char, clean: bool) -> (r: bool)
    ensures
        r == strip_char(c, clean),
{
    if clean {
        c == '\n' || c == ' ' || c == '<' || c == '>' || c == '/'
    } else {
        is_white_char(c)
    }
}

/// Bounds `(a, b)` with `s[a..b] == strip(s, clean)`.
pub fn strip_bounds(s: &Vec<char>, clean: bool) -> (r: (usize, usize))
    ensures
        r.0 <= r.1 <= s.len(),
        r.0 == strip_from(s@, clean, 0),
        r.1 == strip_to(s@, clean, r.0 as int, s.len() as int),
        s@.subrange(r.0 as int, r.1 as int) == strip(s@, clean),
{
    let mut a: usize = 0;
    while a < s.len() && strip_char_exec(s[a], clean)
        invariant
            a <= s.len(),
            strip_from(s@, clean, 0) == strip_from(s@, clean, a as int),
        decreases s.len() - a,
    {
        a = a + 1;
    }
    let mut b: usize = s.len();
    while a < b && strip_char_exec(s[b - 1], clean)
        invariant
            a <= b <= s.len(),
            strip_to(s@, clean, a as int, s.len() as int) == strip_to(s@, clean, a as int, b as int),
        decreases b,
    {
        b = b - 1;
    }
    (a, b)
}

/// Executable `find_char` from the start.
pub fn find_char_exec(s: &Vec<char>, c: char) -> (r: usize)
    ensures
        r == find_char(s@, c, 0),
        r <= s.len(),
{
    let mut i: usize = 0;
    while i < s.len() && s[i] != c
        invariant
            i <= s.len(),
            find_char(s@, c, 0) == find_char(s@, c, i as int),
        decreases s.len() - i,
    {
        i = i + 1;
    }
    i
}

/// Executable `count_char`.
pub fn count_char_exec(s: &Vec<char>, c: char) -> (r: usize)
    ensures
        r == count_char(s@, c),
{
    let mut n: usize = 0;
    let mut i: usize = 0;
    while i < s.len()
        invariant
            i <= s.len(),
            n == count_char(s@.take(i as int), c),
            n <= i,
        decreases s.len() - i,
    {
        assert(s@.take(i + 1).drop_last() =~= s@.take(i as int));
        if s[i] == c {
            n = n + 1;
        }
        i = i + 1;
    }
    assert(s@.take(s.len() as int) =~= s@);
    n
}

fn matches_at(s: &Vec<char>, pat: &Vec<char>, i: usize) -> (r: bool)
    requires
        i + pat.len() <= s.len(),
    ensures
        r == (s@.subrange(i as int, i + pat.len()) == pat@),
{
    let mut j: usize = 0;
    while j < pat.len()
        invariant
            i + pat.len() <= s.len(),
            j <= pat.len(),
            forall|k: int| 0 <= k < j ==> s@[i + k] == pat@[k],
        decreases pat.len() - j,
    {
        if s[i + j] != pat[j] {
            assert(s@.subrange(i as int, i + pat.len())[j as int] != pat@[j as int]);
            return false;
        }
        j = j + 1;
    }
    assert(s@.subrange(i as int, i + pat.len()) =~= pat@);
    true
}

/// Index of the first occurrence of `pat` in `s`, if any.
pub fn find_seq_exec(s: &Vec<char>, pat: &Vec<char>) -> (r: Option<usize>)
    ensures
        match r {
            Some(k) => k == find_seq(s@, pat@, 0) && k + pat.len() <= s.len(),
            None => find_seq(s@, pat@, 0) == -1,
        },
{
    if pat.len() > s.len() {
        return None;
    }
    let last: usize = s.len() - pat.len();
    let mut i: usize = 0;
    while i <= last
        invariant
            i <= last + 1,
            last + pat.len() == s.len(),
            find_seq(s@, pat@, 0) == find_seq(s@, pat@, i as int),
        decreases last + 1 - i,
    {
        if matches_at(s, pat, i) {
            return Some(i);
        }
        if i == last {
            assert(find_seq(s@, pat@, i + 1) == -1);
            return None;
        }
        i = i + 1;
    }
    None
}

/// Appends `s[lo..hi]` to `r`.
pub fn push_range(r: &mut Vec<char>, s: &Vec<char>, lo: usize, hi: usize)
    requires
        lo <= hi <= s.len(),
    ensures
        final(r)@ == old(r)@ + s@.subrange(lo as int, hi as int),
{
    let mut k: usize = lo;
    while k < hi
        invariant
            lo <= k <= hi <= s.len(),
            r@ == old(r)@ + s@.subrange(lo as int, k as int),
        decreases hi - k,
    {
        r.push(s[k]);
        assert(s@.subrange(lo as int, k + 1) =~= s@.subrange(lo as int, k as int).push(s@[k as int]));
        k = k + 1;
    }
}

/// Executable `remove_first`.
pub fn remove_first_exec(s: &Vec<char>, pat: &Vec<char>) -> (r: Vec<char>)
    ensures
        r@ == remove_first(s@, pat@),
{
    let mut r: Vec<char> = Vec::new();
    match find_seq_exec(s, pat) {
        Some(k) => {
            push_range(&mut r, s, 0, k);
            push_range(&mut r, s, k + pat.len(), s.len());
            assert(r@ =~= s@.take(k as int) + s@.skip(k + pat.len()));
        },
        None => {
            push_range(&mut r, s, 0, s.len());
            assert(r@ =~= s@);
        },
    }
    r
}

} // verus!
