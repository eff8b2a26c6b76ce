//! Character-sequence primitives: searching, splitting and number formatting,
//! specified over `Seq<char>` (the view of `str` and `String`).
use vstd::prelude::*;
use vstd::string::StringSliceAdditionalSpecFns;

verus! {

/// `String::push` appends one character at the end of the string. Like
/// vstd's own specification of `Vec::push`, this leaves unsaid that the
/// call aborts when memory cannot be allocated, or panics when the capacity
/// would exceed `isize::MAX` bytes.
pub assume_specification[ String::push ](s: &mut String, ch: char)
    ensures
        final(s)@ == old(s)@.push(ch),
;

/// Code points with the Unicode `White_Space` property (PropList.txt).
pub open spec fn is_white_space(c: char) -> bool {
    let u = c as u32;
    ||| (0x09 <= u && u <= 0x0D)
    ||| u == 0x20
    ||| u == 0x85
    ||| u == 0xA0
    ||| u == 0x1680
    ||| (0x2000 <= u && u <= 0x200A)
    ||| u == 0x2028
    ||| u == 0x2029
    ||| u == 0x202F
    ||| u == 0x205F
    ||| u == 0x3000
}

/// `char::is_whitespace`: true exactly for the characters that carry the
/// Unicode `White_Space` property, which `is_white_space` lists.
#[verifier::external_body]
fn char_is_whitespace(c: char) -> (r: bool)
    ensures
        r == is_white_space(c),
{
    c.is_whitespace()
}

/// `std::str::from_utf8`: the string whose UTF-8 encoding is `bytes`, when
/// `bytes` is valid UTF-8, and nothing otherwise.
#[verifier::external_body]
pub fn str_from_utf8(bytes: &[u8]) -> (r: Option<&str>)
    ensures
        r is Some <==> vstd::utf8::valid_utf8(bytes@),
        r matches Some(s) ==> s.spec_bytes() == bytes@,
{
    std::str::from_utf8(bytes).ok()
}

/// `pat` occurs in `s` starting at index `i`.
pub open spec fn occurs_at(s: Seq<char>, pat: Seq<char>, i: int) -> bool {
    0 <= i && i + pat.len() <= s.len() && s.subrange(i, i + pat.len()) == pat
}

/// The first index `j >= i` at which `pat` occurs in `s`.
pub open spec fn find_from(s: Seq<char>, pat: Seq<char>, i: int) -> Option<int>
    decreases s.len() + 1 - i,
{
    if i < 0 || i + pat.len() > s.len() {
        None
    } else if occurs_at(s, pat, i) {
        Some(i)
    } else {
        find_from(s, pat, i + 1)
    }
}

/// The first index at which `pat` occurs in `s`.
pub open spec fn find(s: Seq<char>, pat: Seq<char>) -> Option<int> {
    find_from(s, pat, 0)
}

/// `str::split_once`: the text before and after the first occurrence of `pat`.
pub open spec fn split_once(s: Seq<char>, pat: Seq<char>) -> Option<(Seq<char>, Seq<char>)> {
    match find(s, pat) {
        Some(i) => Some((s.take(i), s.skip(i + pat.len()))),
        None => None,
    }
}

/// `str::split` from index `start` on: the pieces between the occurrences of
/// `pat`, found left to right without overlap.
pub open spec fn split_from(s: Seq<char>, pat: Seq<char>, start: int) -> Seq<Seq<char>>
    recommends
        pat.len() > 0,
    decreases s.len() - start,
{
    if pat.len() == 0 || start < 0 || start > s.len() {
        seq![]
    } else {
        match find_from(s, pat, start) {
            Some(j) => {
                proof {
                    lemma_find_from(s, pat, start);
                }
                seq![s.subrange(start, j)] + split_from(s, pat, j + pat.len())
            },
            None => seq![s.subrange(start, s.len() as int)],
        }
    }
}

/// `str::split`: the pieces of `s` between the occurrences of `pat`.
pub open spec fn split(s: Seq<char>, pat: Seq<char>) -> Seq<Seq<char>> {
    split_from(s, pat, 0)
}

/// `str::split_whitespace`: the maximal runs of non-white-space characters.
pub open spec fn words(s: Seq<char>) -> Seq<Seq<char>>
    decreases s.len(),
{
    if s.len() == 0 {
        seq![]
    } else if is_white_space(s.last()) {
        words(s.drop_last())
    } else if s.len() >= 2 && !is_white_space(s[s.len() - 2]) {
        let w = words(s.drop_last());
        w.update(w.len() - 1, w.last().push(s.last()))
    } else {
        words(s.drop_last()).push(seq![s.last()])
    }
}

/// The ASCII digit for `d < 10`.
pub open spec fn digit(d: nat) -> char {
    if d == 0 { '0' }
    else if d == 1 { '1' }
    else if d == 2 { '2' }
    else if d == 3 { '3' }
    else if d == 4 { '4' }
    else if d == 5 { '5' }
    else if d == 6 { '6' }
    else if d == 7 { '7' }
    else if d == 8 { '8' }
    else { '9' }
}

/// The decimal notation of `n`, without leading zeros.
pub open spec fn decimal(n: nat) -> Seq<char>
    decreases n,
{
    if n < 10 {
        seq![digit(n)]
    } else {
        decimal(n / 10).push(digit(n % 10))
    }
}

/// The number that a sequence of ASCII digits denotes.
pub open spec fn digits_value(s: Seq<char>) -> int
    decreases s.len(),
{
    if s.len() == 0 {
        0
    } else {
        digits_value(s.drop_last()) * 10 + (s.last() as int - '0' as int)
    }
}

/// The digit for `d` is an ASCII digit that denotes `d`.
pub proof fn lemma_digit(d: nat)
    requires
        d < 10,
    ensures
        '0' <= digit(d) <= '9',
        digit(d) as int - '0' as int == d,
{
    assert('0' as int == 48 && '1' as int == 49 && '2' as int == 50 && '3' as int == 51
        && '4' as int == 52 && '5' as int == 53 && '6' as int == 54 && '7' as int == 55
        && '8' as int == 56 && '9' as int == 57);
}

/// The decimal notation of a number is made of ASCII digits and denotes
/// that number.
pub proof fn law_decimal_denotes(n: nat)
    ensures
        decimal(n).len() > 0,
        forall|i: int| 0 <= i < decimal(n).len() ==> '0' <= #[trigger] decimal(n)[i] <= '9',
        digits_value(decimal(n)) == n,
    decreases n,
{
    if n < 10 {
        lemma_digit(n);
        assert(decimal(n).drop_last() =~= Seq::<char>::empty());
        assert(digits_value(Seq::<char>::empty()) == 0);
        assert(decimal(n).last() == digit(n));
    } else {
        lemma_digit(n % 10);
        law_decimal_denotes(n / 10);
        let d = decimal(n / 10);
        assert(decimal(n).drop_last() =~= d);
        assert(decimal(n).last() == digit(n % 10));
        assert(digits_value(decimal(n)) == digits_value(d) * 10 + (digit(n % 10) as int - '0' as int));
        assert(n == (n / 10) * 10 + n % 10);
        assert forall|i: int| 0 <= i < decimal(n).len() implies '0' <= #[trigger] decimal(n)[i] <= '9' by {
            if i < d.len() {
                assert(decimal(n)[i] == d[i]);
            }
        }
    }
}

/// What `find_from` returns is the first occurrence at or after `i`.
pub proof fn lemma_find_from(s: Seq<char>, pat: Seq<char>, i: int)
    requires
        0 <= i,
    ensures
        match find_from(s, pat, i) {
            Some(j) => i <= j && j + pat.len() <= s.len() && occurs_at(s, pat, j)
                && forall|k: int| i <= k < j ==> !occurs_at(s, pat, k),
            None => forall|k: int| i <= k ==> !occurs_at(s, pat, k),
        },
    decreases s.len() + 1 - i,
{
    if i + pat.len() > s.len() {
    } else if occurs_at(s, pat, i) {
    } else {
        lemma_find_from(s, pat, i + 1);
    }
}


/// The character sequences held by a vector of character vectors.
pub open spec fn pieces_view(v: Seq<Vec<char>>) -> Seq<Seq<char>> {
    v.map_values(|x: Vec<char>| x@)
}

/// `find_from` returns an occurrence when none precedes it.
pub proof fn lemma_find_from_first(s: Seq<char>, pat: Seq<char>, start: int, i: int)
    requires
        0 <= start <= i,
        occurs_at(s, pat, i),
        forall|k: int| start <= k < i ==> !occurs_at(s, pat, k),
    ensures
        find_from(s, pat, start) == Some(i),
    decreases i - start,
{
    if start < i {
        lemma_find_from_first(s, pat, start + 1, i);
    }
}

/// `lines` joined with `sep` between each two of them.
pub open spec fn join(lines: Seq<Seq<char>>, sep: Seq<char>) -> Seq<char>
    decreases lines.len(),
{
    if lines.len() == 0 {
        Seq::empty()
    } else if lines.len() == 1 {
        lines[0]
    } else {
        lines[0] + sep + join(lines.drop_first(), sep)
    }
}

/// Joining lines with one more line appended adds the separator and that
/// line at the end.
pub proof fn lemma_join_push(lines: Seq<Seq<char>>, sep: Seq<char>, x: Seq<char>)
    requires
        lines.len() > 0,
    ensures
        join(lines.push(x), sep) == join(lines, sep) + sep + x,
    decreases lines.len(),
{
    let l = lines.push(x);
    assert(l[0] == lines[0]);
    if lines.len() == 1 {
        assert(l.drop_first() =~= seq![x]);
        assert(join(seq![x], sep) == x);
    } else {
        assert(l.drop_first() =~= lines.drop_first().push(x));
        lemma_join_push(lines.drop_first(), sep, x);
        assert(lines[0] + sep + (join(lines.drop_first(), sep) + sep + x)
            =~= (lines[0] + sep + join(lines.drop_first(), sep)) + sep + x);
    }
}

/// Searching after a prefix finds what searching without it finds, shifted.
pub proof fn lemma_find_from_shift(p: Seq<char>, s: Seq<char>, pat: Seq<char>, k: int)
    requires
        0 <= k,
    ensures
        find_from(p + s, pat, p.len() + k) == match find_from(s, pat, k) {
            Some(j) => Some(j + p.len()),
            None => None::<int>,
        },
    decreases s.len() + 1 - k,
{
    let t = p + s;
    let i = p.len() + k;
    if k + pat.len() <= s.len() {
        assert(t.subrange(i, i + pat.len()) =~= s.subrange(k, k + pat.len()));
        if !occurs_at(s, pat, k) {
            lemma_find_from_shift(p, s, pat, k + 1);
            assert(p.len() + (k + 1) == i + 1);
        }
    }
}

/// Splitting after a prefix gives what splitting without it gives.
pub proof fn lemma_split_from_shift(p: Seq<char>, s: Seq<char>, pat: Seq<char>, k: int)
    requires
        pat.len() > 0,
        0 <= k <= s.len(),
    ensures
        split_from(p + s, pat, p.len() + k) == split_from(s, pat, k),
    decreases s.len() - k,
{
    let t = p + s;
    lemma_find_from_shift(p, s, pat, k);
    lemma_find_from(s, pat, k);
    match find_from(s, pat, k) {
        Some(j) => {
            assert(t.subrange(p.len() + k, j + p.len()) =~= s.subrange(k, j));
            lemma_split_from_shift(p, s, pat, j + pat.len());
            assert(j + p.len() + pat.len() == p.len() + (j + pat.len()));
        },
        None => {
            assert(t.subrange(p.len() + k, t.len() as int) =~= s.subrange(k, s.len() as int));
        },
    }
}

/// No line holds the first character of `sep`.
pub open spec fn free_of(lines: Seq<Seq<char>>, c: char) -> bool {
    forall|i: int, j: int| 0 <= i < lines.len() && 0 <= j < lines[i].len() ==> #[trigger] lines[i][j] != c
}

/// Splitting lines joined with a separator gives the lines back, when no
/// line holds the separator's first character.
pub proof fn law_split_join(lines: Seq<Seq<char>>, sep: Seq<char>)
    requires
        lines.len() > 0,
        sep.len() > 0,
        free_of(lines, sep[0]),
    ensures
        split(join(lines, sep), sep) == lines,
    decreases lines.len(),
{
    let a = lines[0];
    assert forall|k: int| 0 <= k < a.len() implies a[k] != sep[0] by {
        assert(lines[0][k] != sep[0]);
    }
    if lines.len() == 1 {
        lemma_find_from(a, sep, 0);
        match find_from(a, sep, 0) {
            Some(j) => {
                assert(a.subrange(j, j + sep.len())[0] == a[j]);
            },
            None => {},
        }
        assert(a.subrange(0, a.len() as int) =~= a);
        assert(seq![a] =~= lines);
    } else {
        let tail = lines.drop_first();
        assert forall|i: int, j: int| 0 <= i < tail.len() && 0 <= j < tail[i].len() implies #[trigger] tail[i][j] != sep[0] by {
            assert(tail[i] == lines[i + 1]);
        }
        law_split_join(tail, sep);
        let rest = join(tail, sep);
        let t = join(lines, sep);
        assert(t == a + sep + rest);
        assert(t.subrange(a.len() as int, (a.len() + sep.len()) as int) =~= sep);
        assert forall|k: int| 0 <= k < a.len() implies !occurs_at(t, sep, k) by {
            if occurs_at(t, sep, k) {
                assert(t.subrange(k, k + sep.len())[0] == t[k]);
                assert(t[k] == a[k]);
            }
        }
        lemma_find_from_first(t, sep, 0, a.len() as int);
        assert(t.subrange(0, a.len() as int) =~= a);
        assert(t =~= (a + sep) + rest);
        lemma_split_from_shift(a + sep, rest, sep, 0);
        assert(split(t, sep) =~= seq![a] + tail);
        assert(seq![a] + tail =~= lines);
    }
}

/// A word: a non-empty run of characters without white space.
pub open spec fn is_word(w: Seq<char>) -> bool {
    w.len() > 0 && forall|i: int| 0 <= i < w.len() ==> !is_white_space(#[trigger] w[i])
}

/// White space after a text adds no word.
pub proof fn lemma_words_push_white(s: Seq<char>, c: char)
    requires
        is_white_space(c),
    ensures
        words(s.push(c)) == words(s),
{
    assert(s.push(c).drop_last() =~= s);
}

/// A word after a text that is empty or ends in white space is one more word.
pub proof fn lemma_words_append_word(s: Seq<char>, w: Seq<char>)
    requires
        is_word(w),
        s.len() == 0 || is_white_space(s.last()),
    ensures
        words(s + w) == words(s).push(w),
    decreases w.len(),
{
    let t = s + w;
    assert(t.drop_last() =~= s + w.drop_last());
    assert(t.last() == w.last());
    if w.len() == 1 {
        assert(w.drop_last() =~= Seq::<char>::empty());
        assert(s + w.drop_last() =~= s);
        if s.len() > 0 {
            assert(t[t.len() - 2] == s.last());
        }
        assert(seq![w.last()] =~= w);
    } else {
        let u = w.drop_last();
        assert(u[u.len() - 1] == w[w.len() - 2]);
        lemma_words_append_word(s, u);
        assert(t[t.len() - 2] == w[w.len() - 2]);
        let ws = words(s + u);
        assert(ws == words(s).push(u));
        assert(u.push(w.last()) =~= w);
        assert(ws.last() == u);
        assert(ws.update(ws.len() - 1, ws.last().push(w.last())) =~= words(s).push(w));
    }
}

/// The characters of `s`, in order.
pub fn to_chars(s: &str) -> (v: Vec<char>)
    ensures
        v@ == s@,
{
    broadcast use vstd::string::group_string_axioms;

    let mut v: Vec<char> = Vec::new();
    for c in it: s.chars()
        invariant
            v@ == it.seq().take(it.index() as int),
    {
        v.push(c);
    }
    v
}

/// The characters `s[from..to]` as a vector.
pub fn sub_chars(s: &Vec<char>, from: usize, to: usize) -> (v: Vec<char>)
    requires
        from <= to <= s.len(),
    ensures
        v@ == s@.subrange(from as int, to as int),
{
    let mut v: Vec<char> = Vec::new();
    let mut i: usize = from;
    while i < to
        invariant
            from <= i <= to <= s.len(),
            v@ == s@.subrange(from as int, i as int),
        decreases to - i,
    {
        v.push(s[i]);
        i += 1;
    }
    v
}

/// The characters `s[from..to]` as a string.
pub fn sub_string(s: &Vec<char>, from: usize, to: usize) -> (r: String)
    requires
        from <= to <= s.len(),
    ensures
        r@ == s@.subrange(from as int, to as int),
{
    let mut r = String::new();
    let mut i: usize = from;
    while i < to
        invariant
            from <= i <= to <= s.len(),
            r@ == s@.subrange(from as int, i as int),
        decreases to - i,
    {
        r.push(s[i]);
        i += 1;
    }
    r
}

/// Whether `pat` occurs in `s` at index `i`.
pub fn occurs_at_exec(s: &Vec<char>, pat: &Vec<char>, i: usize) -> (r: bool)
    ensures
        r == occurs_at(s@, pat@, i as int),
{
    if i > s.len() || pat.len() > s.len() - i {
        return false;
    }
    let mut k: usize = 0;
    while k < pat.len()
        invariant
            i + pat.len() <= s.len(),
            k <= pat.len(),
            forall|m: int| 0 <= m < k ==> s@[i + m] == pat@[m],
        decreases pat.len() - k,
    {
        if s[i + k] != pat[k] {
            assert(s@.subrange(i as int, i + pat.len())[k as int] != pat@[k as int]);
            return false;
        }
        k += 1;
    }
    assert(s@.subrange(i as int, i + pat.len()) =~= pat@);
    true
}

/// The first index at or after `start` at which `pat` occurs in `s`.
pub fn find_from_exec(s: &Vec<char>, pat: &Vec<char>, start: usize) -> (r: Option<usize>)
    ensures
        match r {
            Some(j) => find_from(s@, pat@, start as int) == Some(j as int),
            None => find_from(s@, pat@, start as int) is None,
        },
{
    let mut i = start;
    while i <= s.len() && pat.len() <= s.len() - i
        invariant
            start <= i,
            find_from(s@, pat@, start as int) == find_from(s@, pat@, i as int),
        decreases s.len() + 1 - i,
    {
        if occurs_at_exec(s, pat, i) {
            return Some(i);
        }
        assert(i < s.len()) by {
            if i == s.len() {
                assert(s@.subrange(i as int, i as int) =~= pat@);
            }
        }
        i += 1;
    }
    None
}

/// `str::split` on a character vector.
pub fn split_exec(s: &Vec<char>, pat: &Vec<char>) -> (r: Vec<Vec<char>>)
    requires
        pat.len() > 0,
    ensures
        pieces_view(r@) == split(s@, pat@),
{
    let mut r: Vec<Vec<char>> = Vec::new();
    let mut start: usize = 0;
    loop
        invariant
            pat.len() > 0,
            start <= s.len(),
            split(s@, pat@) == pieces_view(r@) + split_from(s@, pat@, start as int),
        decreases s.len() - start,
    {
        proof {
            lemma_find_from(s@, pat@, start as int);
        }
        match find_from_exec(s, pat, start) {
            Some(j) => {
                let piece = sub_chars(s, start, j);
                let ghost before = r@;
                r.push(piece);
                assert(pieces_view(r@) =~= pieces_view(before).push(piece@));
                start = j + pat.len();
            },
            None => {
                let piece = sub_chars(s, start, s.len());
                let ghost before = r@;
                r.push(piece);
                assert(pieces_view(r@) =~= pieces_view(before).push(piece@));
                return r;
            },
        }
    }
}

/// `str::split_once` on a character vector, as two strings.
pub fn split_once_exec(s: &Vec<char>, pat: &Vec<char>) -> (r: Option<(String, String)>)
    ensures
        match r {
            Some((a, b)) => split_once(s@, pat@) == Some((a@, b@)),
            None => split_once(s@, pat@) is None,
        },
{
    proof {
        lemma_find_from(s@, pat@, 0);
    }
    match find_from_exec(s, pat, 0) {
        Some(i) => {
            assert(i + pat.len() <= s.len());
            let a = sub_string(s, 0, i);
            let b = sub_string(s, i + pat.len(), s.len());
            assert(a@ =~= s@.take(i as int));
            assert(b@ =~= s@.skip(i + pat.len()));
            Some((a, b))
        },
        None => None,
    }
}


/// `str::split_whitespace` on a character vector.
pub fn words_exec(s: &Vec<char>) -> (r: Vec<Vec<char>>)
    ensures
        pieces_view(r@) == words(s@),
{
    let mut r: Vec<Vec<char>> = Vec::new();
    let mut cur: Vec<char> = Vec::new();
    let mut i: usize = 0;
    while i < s.len()
        invariant
            i <= s.len(),
            cur@.len() > 0 <==> (i > 0 && !is_white_space(s@[i - 1])),
            cur@.len() > 0 ==> words(s@.take(i as int)) == pieces_view(r@).push(cur@),
            cur@.len() == 0 ==> words(s@.take(i as int)) == pieces_view(r@),
        decreases s.len() - i,
    {
        let c = s[i];
        let ghost prev = s@.take(i as int);
        let ghost next = s@.take(i + 1);
        assert(next.drop_last() =~= prev);
        assert(next.last() == c);
        assert(i >= 1 ==> next[next.len() - 2] == s@[i - 1]);
        if char_is_whitespace(c) {
            if cur.len() > 0 {
                let ghost before = r@;
                r.push(cur);
                assert(pieces_view(r@) =~= pieces_view(before).push(cur@));
                cur = Vec::new();
            }
        } else if cur.len() > 0 {
            let ghost w = pieces_view(r@).push(cur@);
            cur.push(c);
            assert(w.update(w.len() - 1, w.last().push(c)) =~= pieces_view(r@).push(cur@));
        } else {
            cur.push(c);
            assert(cur@ =~= seq![c]);
        }
        i += 1;
    }
    assert(s@.take(s.len() as int) =~= s@);
    if cur.len() > 0 {
        let ghost before = r@;
        r.push(cur);
        assert(pieces_view(r@) =~= pieces_view(before).push(cur@));
    }
    r
}

/// The ASCII digit character for `d`.
fn digit_char(d: usize) -> (c: char)
    requires
        d < 10,
    ensures
        c == digit(d as nat),
{
    if d == 0 { '0' }
    else if d == 1 { '1' }
    else if d == 2 { '2' }
    else if d == 3 { '3' }
    else if d == 4 { '4' }
    else if d == 5 { '5' }
    else if d == 6 { '6' }
    else if d == 7 { '7' }
    else if d == 8 { '8' }
    else { '9' }
}

/// The decimal notation of `n`, as `usize`'s `Display` writes it.
pub fn decimal_string(n: usize) -> (r: String)
    ensures
        r@ == decimal(n as nat),
    decreases n,
{
    if n < 10 {
        let mut r = String::new();
        r.push(digit_char(n));
        assert(r@ =~= seq![digit(n as nat)]);
        r
    } else {
        let mut r = decimal_string(n / 10);
        r.push(digit_char(n % 10));
        r
    }
}

} // verus!
