//! Text as sequences of characters: the vocabulary in which every contract of
//! this crate speaks about strings, and the executable routines that compute it.

use vstd::prelude::*;

verus! {

/// `String::push` of the standard library, taken on trust: afterwards the
/// string holds the characters it held, and `c` behind them.
pub assume_specification[ String::push ](s: &mut String, c: char)
    ensures
        final(s)@ == old(s)@.push(c),
;

/// The characters of `s`, in order.
pub fn to_chars(s: &str) -> (v: Vec<char>)
    ensures
        v@ == s@,
{
    let mut v: Vec<char> = Vec::new();
    for c in it: s.chars()
        invariant
            v@ == s@.take(it.index() as int),
            it.seq() == s@,
    {
        v.push(c);
    }
    v
}

/// The string made of the characters `v[from..to]`.
pub fn from_chars_range(v: &Vec<char>, from: usize, to: usize) -> (s: String)
    requires
        from <= to <= v.len(),
    ensures
        s@ == v@.subrange(from as int, to as int),
{
    let mut s = String::new();
    let mut i: usize = from;
    while i < to
        invariant
            from <= i <= to <= v.len(),
            s@ == v@.subrange(from as int, i as int),
        decreases to - i,
    {
        s.push(v[i]);
        i += 1;
    }
    s
}

/// The string made of the characters of `v`.
pub fn from_chars(v: &Vec<char>) -> (s: String)
    ensures
        s@ == v@,
{
    from_chars_range(v, 0, v.len())
}

/// Whether `p` occurs in `s` at position `i`.
pub open spec fn matches_at(s: Seq<char>, p: Seq<char>, i: int) -> bool {
    0 <= i && i + p.len() <= s.len() && s.subrange(i, i + p.len()) == p
}

/// Whether `s` begins with `p`.
pub open spec fn starts_with(s: Seq<char>, p: Seq<char>) -> bool {
    matches_at(s, p, 0)
}

/// The least position at or after `from` where the non-empty `p` occurs in `s`.
pub open spec fn find_from(s: Seq<char>, p: Seq<char>, from: int) -> Option<int>
    decreases s.len() - from,
{
    if from < 0 || p.len() == 0 || from + p.len() > s.len() {
        None
    } else if matches_at(s, p, from) {
        Some(from)
    } else {
        find_from(s, p, from + 1)
    }
}

/// `find_from` returns the first occurrence at or after `from`, and `None`
/// exactly when there is none.
pub proof fn lemma_find_from(s: Seq<char>, p: Seq<char>, from: int)
    requires
        0 <= from,
        p.len() > 0,
    ensures
        match find_from(s, p, from) {
            Some(i) => from <= i && matches_at(s, p, i) && forall|j: int|
                from <= j < i ==> !matches_at(s, p, j),
            None => forall|j: int| from <= j ==> !matches_at(s, p, j),
        },
    decreases s.len() - from,
{
    if p.len() == 0 || from + p.len() > s.len() {
    } else if matches_at(s, p, from) {
    } else {
        lemma_find_from(s, p, from + 1);
    }
}

/// Whether `p` occurs in `s` at position `i`.
pub fn matches_at_exec(s: &Vec<char>, p: &Vec<char>, i: usize) -> (r: bool)
    ensures
        r == matches_at(s@, p@, i as int),
{
    if p.len() > s.len() || i > s.len() - p.len() {
        return false;
    }
    let mut k: usize = 0;
    while k < p.len()
        invariant
            k <= p.len(),
            i + p.len() <= s.len(),
            s@.subrange(i as int, i + k) == p@.take(k as int),
        decreases p.len() - k,
    {
        if s[i + k] != p[k] {
            assert(s@.subrange(i as int, i + p.len())[k as int] != p@[k as int]);
            return false;
        }
        assert(s@.subrange(i as int, i + k + 1) == s@.subrange(i as int, i + k).push(
            s@[i + k],
        ));
        assert(p@.take(k + 1) == p@.take(k as int).push(p@[k as int]));
        k += 1;
    }
    assert(p@.take(p.len() as int) == p@);
    true
}

/// The first occurrence of `p` in `s` at or after `from`.
pub fn find_from_exec(s: &Vec<char>, p: &Vec<char>, from: usize) -> (r: Option<usize>)
    ensures
        match r {
            Some(i) => find_from(s@, p@, from as int) == Some(i as int),
            None => find_from(s@, p@, from as int) is None,
        },
{
    if p.len() == 0 {
        return None;
    }
    let mut i: usize = from;
    while i < s.len() && p.len() <= s.len() - i
        invariant
            from <= i,
            p.len() > 0,
            find_from(s@, p@, from as int) == find_from(s@, p@, i as int),
        decreases s.len() - i,
    {
        if matches_at_exec(s, p, i) {
            return Some(i);
        }
        i += 1;
    }
    None
}

/// The pieces of `s` from `pos` on, cut at each successive occurrence of the
/// non-empty separator `sep`, scanning from the left.
pub open spec fn split_from(s: Seq<char>, sep: Seq<char>, pos: int) -> Seq<Seq<char>>
    decreases s.len() - pos,
{
    match find_from(s, sep, pos) {
        Some(i) => {
            if pos <= i && i + sep.len() <= s.len() && sep.len() > 0 {
                seq![s.subrange(pos, i)] + split_from(s, sep, i + sep.len())
            } else {
                seq![s.subrange(pos, s.len() as int)]
            }
        },
        None => seq![s.subrange(pos, s.len() as int)],
    }
}

/// The pieces of `s` between the occurrences of the non-empty separator `sep`.
/// There is always at least one piece.
pub open spec fn split(s: Seq<char>, sep: Seq<char>) -> Seq<Seq<char>> {
    split_from(s, sep, 0)
}

/// The pieces glued together with `sep` between each two neighbours.
pub open spec fn join(parts: Seq<Seq<char>>, sep: Seq<char>) -> Seq<char>
    decreases parts.len(),
{
    if parts.len() == 0 {
        Seq::empty()
    } else if parts.len() == 1 {
        parts[0]
    } else {
        join(parts.drop_last(), sep) + sep + parts.last()
    }
}

/// `n` copies of `p`, one after another.
pub open spec fn repeat(p: Seq<char>, n: nat) -> Seq<char>
    decreases n,
{
    if n == 0 {
        Seq::empty()
    } else {
        repeat(p, (n - 1) as nat) + p
    }
}

/// The character sequences that the vectors of `v` hold.
pub open spec fn views(v: Seq<Vec<char>>) -> Seq<Seq<char>> {
    v.map_values(|x: Vec<char>| x@)
}

/// The character sequences that the strings of `v` hold.
pub open spec fn str_views(v: Seq<String>) -> Seq<Seq<char>> {
    v.map_values(|x: String| x@)
}

/// The pieces of `s` between the occurrences of `sep`.
pub fn split_exec(s: &Vec<char>, sep: &Vec<char>) -> (parts: Vec<Vec<char>>)
    requires
        sep.len() > 0,
    ensures
        views(parts@) == split(s@, sep@),
        parts.len() >= 1,
{
    let mut parts: Vec<Vec<char>> = Vec::new();
    let mut pos: usize = 0;
    loop
        invariant
            pos <= s.len(),
            sep.len() > 0,
            split(s@, sep@) == views(parts@) + split_from(s@, sep@, pos as int),
        decreases s.len() - pos,
    {
        let ghost before = views(parts@);
        proof {
            lemma_find_from(s@, sep@, pos as int);
        }
        match find_from_exec(s, sep, pos) {
            Some(i) => {
                parts.push(slice_chars(s, pos, i));
                assert(views(parts@) =~= before.push(s@.subrange(pos as int, i as int)));
                pos = i + sep.len();
            },
            None => {
                parts.push(slice_chars(s, pos, s.len()));
                assert(views(parts@) =~= before.push(
                    s@.subrange(pos as int, s.len() as int),
                ));
                return parts;
            },
        }
    }
}

/// The characters `v[from..to]`.
pub fn slice_chars(v: &Vec<char>, from: usize, to: usize) -> (r: Vec<char>)
    requires
        from <= to <= v.len(),
    ensures
        r@ == v@.subrange(from as int, to as int),
{
    let mut r: Vec<char> = Vec::new();
    let mut i: usize = from;
    while i < to
        invariant
            from <= i <= to <= v.len(),
            r@ == v@.subrange(from as int, i as int),
        decreases to - i,
    {
        r.push(v[i]);
        i += 1;
    }
    r
}

/// Appends the characters of `tail` to `out`.
pub fn push_chars(out: &mut Vec<char>, tail: &Vec<char>)
    ensures
        final(out)@ == old(out)@ + tail@,
{
    let mut i: usize = 0;
    while i < tail.len()
        invariant
            i <= tail.len(),
            out@ == old(out)@ + tail@.take(i as int),
        decreases tail.len() - i,
    {
        out.push(tail[i]);
        i += 1;
    }
}

/// The pieces glued together with `sep` between each two neighbours.
pub fn join_exec(parts: &Vec<Vec<char>>, sep: &Vec<char>) -> (r: Vec<char>)
    ensures
        r@ == join(views(parts@), sep@),
{
    let mut r: Vec<char> = Vec::new();
    let mut i: usize = 0;
    while i < parts.len()
        invariant
            i <= parts.len(),
            r@ == join(views(parts@).take(i as int), sep@),
        decreases parts.len() - i,
    {
        let ghost prev = views(parts@).take(i as int);
        let ghost next = views(parts@).take(i + 1);
        assert(next.drop_last() =~= prev);
        assert(next.last() == parts@[i as int]@);
        if i > 0 {
            push_chars(&mut r, sep);
        }
        push_chars(&mut r, &parts[i]);
        i += 1;
    }
    assert(views(parts@).take(parts.len() as int) == views(parts@));
    r
}

/// The greatest position at or before `from` where the non-empty `p` occurs in `s`.
pub open spec fn rfind_from(s: Seq<char>, p: Seq<char>, from: int) -> Option<int>
    decreases from + 1,
{
    if from < 0 || p.len() == 0 {
        None
    } else if matches_at(s, p, from) {
        Some(from)
    } else {
        rfind_from(s, p, from - 1)
    }
}

/// The greatest position where the non-empty `p` occurs in `s`.
pub open spec fn rfind(s: Seq<char>, p: Seq<char>) -> Option<int> {
    rfind_from(s, p, s.len() - p.len())
}

/// `rfind_from` returns the last occurrence at or before `from`, and `None`
/// exactly when there is none.
pub proof fn lemma_rfind_from(s: Seq<char>, p: Seq<char>, from: int)
    requires
        p.len() > 0,
    ensures
        match rfind_from(s, p, from) {
            Some(i) => 0 <= i <= from && matches_at(s, p, i) && forall|j: int|
                i < j <= from ==> !matches_at(s, p, j),
            None => forall|j: int| 0 <= j <= from ==> !matches_at(s, p, j),
        },
    decreases from + 1,
{
    if from < 0 {
    } else if matches_at(s, p, from) {
    } else {
        lemma_rfind_from(s, p, from - 1);
    }
}

/// What follows the last occurrence of the separator `sep` in `s`: all of `s`
/// where `sep` does not occur.
pub open spec fn after_last(s: Seq<char>, sep: Seq<char>) -> Seq<char> {
    match rfind(s, sep) {
        Some(i) => s.subrange(i + sep.len(), s.len() as int),
        None => s,
    }
}

/// The last occurrence of `p` in `s`.
pub fn rfind_exec(s: &Vec<char>, p: &Vec<char>) -> (r: Option<usize>)
    ensures
        match r {
            Some(i) => rfind(s@, p@) == Some(i as int) && i + p.len() <= s.len(),
            None => rfind(s@, p@) is None,
        },
{
    if p.len() == 0 || p.len() > s.len() {
        return None;
    }
    let mut i: usize = s.len() - p.len();
    loop
        invariant
            p.len() > 0,
            i + p.len() <= s.len(),
            rfind(s@, p@) == rfind_from(s@, p@, i as int),
        decreases i,
    {
        if matches_at_exec(s, p, i) {
            return Some(i);
        }
        if i == 0 {
            assert(rfind_from(s@, p@, -1) is None);
            return None;
        }
        i -= 1;
    }
}

/// Whether `c` has Unicode's property White_Space: what `char::is_whitespace`
/// of the standard library answers for `c`.
pub uninterp spec fn char_is_whitespace(c: char) -> bool;

/// Whether `c` has Unicode's property Uppercase: what `char::is_uppercase` of
/// the standard library answers for `c`.
pub uninterp spec fn char_is_uppercase(c: char) -> bool;

/// Whether `c` has Unicode's property Alphabetic or is a number of one of
/// Unicode's categories Nd, Nl and No: what `char::is_alphanumeric` of the
/// standard library answers for `c`.
pub uninterp spec fn char_is_alphanumeric(c: char) -> bool;

/// `char::is_whitespace` of the standard library, taken on trust: its answer
/// depends on the character alone.
pub assume_specification[ char::is_whitespace ](c: char) -> (r: bool)
    ensures
        r == char_is_whitespace(c),
;

/// `char::is_uppercase` of the standard library, taken on trust: its answer
/// depends on the character alone.
pub assume_specification[ char::is_uppercase ](c: char) -> (r: bool)
    ensures
        r == char_is_uppercase(c),
;

/// `char::is_alphanumeric` of the standard library, taken on trust: its
/// answer depends on the character alone.
pub assume_specification[ char::is_alphanumeric ](c: char) -> (r: bool)
    ensures
        r == char_is_alphanumeric(c),
;

/// The number of whitespace characters that `s` begins with.
pub open spec fn leading_ws(s: Seq<char>) -> nat
    decreases s.len(),
{
    if s.len() > 0 && char_is_whitespace(s[0]) {
        1 + leading_ws(s.drop_first())
    } else {
        0
    }
}

/// The number of whitespace characters that `s` ends with.
pub open spec fn trailing_ws(s: Seq<char>) -> nat
    decreases s.len(),
{
    if s.len() > 0 && char_is_whitespace(s.last()) {
        1 + trailing_ws(s.drop_last())
    } else {
        0
    }
}

/// `s` without the whitespace it begins with.
pub open spec fn trim_start(s: Seq<char>) -> Seq<char> {
    s.skip(leading_ws(s) as int)
}

/// `s` without the whitespace it ends with.
pub open spec fn trim_end(s: Seq<char>) -> Seq<char> {
    s.take(s.len() - trailing_ws(s))
}

/// `s` without the whitespace at its two ends.
pub open spec fn trim(s: Seq<char>) -> Seq<char> {
    trim_end(trim_start(s))
}

/// The number of characters other than whitespace that `s` begins with.
pub open spec fn word_len(s: Seq<char>) -> nat
    decreases s.len(),
{
    if s.len() > 0 && !char_is_whitespace(s[0]) {
        1 + word_len(s.drop_first())
    } else {
        0
    }
}

/// The maximal runs of characters other than whitespace in `s`, in order.
pub open spec fn words(s: Seq<char>) -> Seq<Seq<char>>
    decreases s.len(),
{
    let t = trim_start(s);
    let n = word_len(t);
    if n == 0 || n > t.len() || t.len() > s.len() {
        Seq::empty()
    } else {
        seq![t.take(n as int)] + words(t.skip(n as int))
    }
}

/// The counts of leading whitespace and of leading other characters stay
/// within the sequence.
pub proof fn lemma_run_bounds(s: Seq<char>)
    ensures
        leading_ws(s) <= s.len(),
        trailing_ws(s) <= s.len(),
        word_len(s) <= s.len(),
        leading_ws(s) < s.len() ==> !char_is_whitespace(s[leading_ws(s) as int]),
        s.len() > 0 && !char_is_whitespace(s[0]) ==> word_len(s) > 0,
    decreases s.len(),
{
    if s.len() > 0 {
        lemma_run_bounds(s.drop_first());
        lemma_run_bounds(s.drop_last());
    }
}

/// The number of whitespace characters that `s[from..to]` begins with.
pub fn leading_ws_exec(s: &Vec<char>, from: usize, to: usize) -> (n: usize)
    requires
        from <= to <= s.len(),
    ensures
        n == leading_ws(s@.subrange(from as int, to as int)),
        from + n <= to,
{
    let mut i: usize = from;
    while i < to && s[i].is_whitespace()
        invariant
            from <= i <= to <= s.len(),
            leading_ws(s@.subrange(from as int, to as int)) == (i - from) + leading_ws(
                s@.subrange(i as int, to as int),
            ),
        decreases to - i,
    {
        assert(s@.subrange(i as int, to as int).drop_first() =~= s@.subrange(i + 1, to as int));
        i += 1;
    }
    i - from
}

/// The number of whitespace characters that `s[from..to]` ends with.
pub fn trailing_ws_exec(s: &Vec<char>, from: usize, to: usize) -> (n: usize)
    requires
        from <= to <= s.len(),
    ensures
        n == trailing_ws(s@.subrange(from as int, to as int)),
        from + n <= to,
{
    let mut j: usize = to;
    while j > from && s[j - 1].is_whitespace()
        invariant
            from <= j <= to <= s.len(),
            trailing_ws(s@.subrange(from as int, to as int)) == (to - j) + trailing_ws(
                s@.subrange(from as int, j as int),
            ),
        decreases j,
    {
        assert(s@.subrange(from as int, j as int).drop_last() =~= s@.subrange(
            from as int,
            j - 1,
        ));
        j -= 1;
    }
    to - j
}

/// The number of characters other than whitespace that `s[from..to]` begins with.
pub fn word_len_exec(s: &Vec<char>, from: usize, to: usize) -> (n: usize)
    requires
        from <= to <= s.len(),
    ensures
        n == word_len(s@.subrange(from as int, to as int)),
        from + n <= to,
{
    let mut i: usize = from;
    while i < to && !s[i].is_whitespace()
        invariant
            from <= i <= to <= s.len(),
            word_len(s@.subrange(from as int, to as int)) == (i - from) + word_len(
                s@.subrange(i as int, to as int),
            ),
        decreases to - i,
    {
        assert(s@.subrange(i as int, to as int).drop_first() =~= s@.subrange(i + 1, to as int));
        i += 1;
    }
    i - from
}

/// The bounds of `s[from..to]` without the whitespace at its two ends.
pub fn trim_bounds(s: &Vec<char>, from: usize, to: usize) -> (r: (usize, usize))
    requires
        from <= to <= s.len(),
    ensures
        from <= r.0 <= r.1 <= to,
        s@.subrange(r.0 as int, r.1 as int) == trim(s@.subrange(from as int, to as int)),
{
    let a = leading_ws_exec(s, from, to);
    let b = trailing_ws_exec(s, from + a, to);
    assert(s@.subrange(from as int, to as int).skip(a as int) =~= s@.subrange(
        from + a,
        to as int,
    ));
    assert(s@.subrange(from + a, to as int).take(to - from - a - b) =~= s@.subrange(
        from + a,
        to - b,
    ));
    (from + a, to - b)
}

/// `s` without the whitespace at its two ends.
pub fn trim_exec(s: &Vec<char>) -> (r: Vec<char>)
    ensures
        r@ == trim(s@),
{
    assert(s@.subrange(0, s.len() as int) =~= s@);
    let (a, b) = trim_bounds(s, 0, s.len());
    slice_chars(s, a, b)
}

/// The maximal runs of characters other than whitespace in `s`, in order.
pub fn words_exec(s: &Vec<char>) -> (r: Vec<Vec<char>>)
    ensures
        views(r@) == words(s@),
{
    let mut r: Vec<Vec<char>> = Vec::new();
    let mut pos: usize = 0;
    assert(s@.skip(0) =~= s@);
    loop
        invariant
            pos <= s.len(),
            words(s@) == views(r@) + words(s@.skip(pos as int)),
        decreases s.len() - pos,
    {
        let ghost rest = s@.skip(pos as int);
        assert(rest =~= s@.subrange(pos as int, s.len() as int));
        let a = leading_ws_exec(s, pos, s.len());
        let ghost t = trim_start(rest);
        assert(t =~= s@.subrange(pos + a, s.len() as int));
        let n = word_len_exec(s, pos + a, s.len());
        if n == 0 {
            assert(views(r@) + Seq::<Seq<char>>::empty() =~= views(r@));
            return r;
        }
        let ghost before = views(r@);
        r.push(slice_chars(s, pos + a, pos + a + n));
        assert(t.take(n as int) =~= s@.subrange(pos + a, pos + a + n));
        assert(t.skip(n as int) =~= s@.skip(pos + a + n));
        assert(views(r@) =~= before.push(t.take(n as int)));
        assert(before + (seq![t.take(n as int)] + words(t.skip(n as int))) =~= before.push(
            t.take(n as int),
        ) + words(t.skip(n as int)));
        pos = pos + a + n;
    }
}

/// The first position of `c` in `s`.
pub fn find_char(s: &Vec<char>, c: char) -> (r: Option<usize>)
    ensures
        match r {
            Some(i) => s@.index_of_first(c) == Some(i as int) && i < s.len(),
            None => s@.index_of_first(c) is None,
        },
{
    proof {
        s@.index_of_first_ensures(c);
    }
    let mut i: usize = 0;
    while i < s.len()
        invariant
            i <= s.len(),
            forall|j: int| 0 <= j < i ==> s@[j] != c,
        decreases s.len() - i,
    {
        if s[i] == c {
            proof {
                assert(s@[i as int] == c);
                s@.index_of_first_ensures(c);
                let k = s@.index_of_first(c).unwrap();
                if k < i {
                    assert(s@[k] != c);
                }
            }
            return Some(i);
        }
        i += 1;
    }
    None
}

/// The last position of `c` in `s`.
pub fn rfind_char(s: &Vec<char>, c: char) -> (r: Option<usize>)
    ensures
        match r {
            Some(i) => s@.index_of_last(c) == Some(i as int) && i < s.len(),
            None => s@.index_of_last(c) is None,
        },
{
    proof {
        s@.index_of_last_ensures(c);
    }
    let mut i: usize = s.len();
    while i > 0
        invariant
            i <= s.len(),
            forall|j: int| i <= j < s.len() ==> s@[j] != c,
        decreases i,
    {
        if s[i - 1] == c {
            proof {
                assert(s@[i - 1] == c);
                s@.index_of_last_ensures(c);
                let k = s@.index_of_last(c).unwrap();
                if k > i - 1 {
                    assert(s@[k] != c);
                }
            }
            return Some(i - 1);
        }
        i -= 1;
    }
    None
}

/// Whether the two vectors hold the same characters.
pub fn chars_eq(a: &Vec<char>, b: &Vec<char>) -> (r: bool)
    ensures
        r == (a@ == b@),
{
    if a.len() != b.len() {
        return false;
    }
    let r = matches_at_exec(a, b, 0);
    assert(a@.subrange(0, a.len() as int) =~= a@);
    r
}

/// Whether the two strings hold the same characters.
pub fn str_eq(a: &str, b: &str) -> (r: bool)
    ensures
        r == (a@ == b@),
{
    let x = to_chars(a);
    let y = to_chars(b);
    chars_eq(&x, &y)
}

/// Whether `s` begins with `p`.
pub fn starts_with_exec(s: &Vec<char>, p: &Vec<char>) -> (r: bool)
    ensures
        r == starts_with(s@, p@),
{
    matches_at_exec(s, p, 0)
}

/// The number of bytes that the characters take in UTF-8.
pub open spec fn utf8_len(s: Seq<char>) -> nat {
    vstd::utf8::encode_utf8(s).len()
}

/// The number of bytes that the characters `v[from..to]` take in UTF-8.
pub fn utf8_len_exec(v: &Vec<char>, from: usize, to: usize) -> (n: usize)
    requires
        from <= to <= v.len(),
    ensures
        n == utf8_len(v@.subrange(from as int, to as int)),
{
    let s = from_chars_range(v, from, to);
    s.as_str().as_bytes().len()
}

/// A copy of a list of strings.
pub fn copy_strs(v: &Vec<String>) -> (r: Vec<String>)
    ensures
        str_views(r@) == str_views(v@),
{
    let mut r: Vec<String> = Vec::new();
    let mut i: usize = 0;
    while i < v.len()
        invariant
            i <= v.len(),
            str_views(r@) == str_views(v@).take(i as int),
        decreases v.len() - i,
    {
        let ghost before = str_views(r@);
        r.push(v[i].clone());
        assert(str_views(r@) =~= before.push(v@[i as int]@));
        assert(str_views(v@).take(i + 1) =~= str_views(v@).take(i as int).push(v@[i as int]@));
        i += 1;
    }
    assert(str_views(v@).take(v.len() as int) =~= str_views(v@));
    r
}

/// The strings glued together with `sep` between each two neighbours.
pub fn join_strs(parts: &Vec<String>, sep: &str) -> (r: String)
    ensures
        r@ == join(str_views(parts@), sep@),
{
    let mut r = String::new();
    let mut i: usize = 0;
    while i < parts.len()
        invariant
            i <= parts.len(),
            r@ == join(str_views(parts@).take(i as int), sep@),
        decreases parts.len() - i,
    {
        let ghost prev = str_views(parts@).take(i as int);
        let ghost next = str_views(parts@).take(i + 1);
        assert(next.drop_last() =~= prev);
        assert(next.last() == parts@[i as int]@);
        if i > 0 {
            r.append(sep);
        }
        r.append(parts[i].as_str());
        i += 1;
    }
    assert(str_views(parts@).take(parts.len() as int) =~= str_views(parts@));
    r
}

/// `s` without the prefix `p`, if it begins with `p`.
pub open spec fn strip_prefix(s: Seq<char>, p: Seq<char>) -> Option<Seq<char>> {
    if starts_with(s, p) {
        Some(s.skip(p.len() as int))
    } else {
        None
    }
}

/// `s` without the prefix `p`, if it begins with `p`.
pub fn strip_prefix_exec(s: &Vec<char>, p: &Vec<char>) -> (r: Option<Vec<char>>)
    ensures
        match r {
            Some(t) => strip_prefix(s@, p@) == Some(t@),
            None => strip_prefix(s@, p@) is None,
        },
{
    if starts_with_exec(s, p) {
        let t = slice_chars(s, p.len(), s.len());
        assert(t@ =~= s@.skip(p.len() as int));
        Some(t)
    } else {
        None
    }
}

/// `s` followed by as many spaces as it takes to reach `width` characters.
pub open spec fn pad_right(s: Seq<char>, width: nat) -> Seq<char> {
    if s.len() >= width {
        s
    } else {
        s + repeat(" "@, (width - s.len()) as nat)
    }
}

/// The greatest number of UTF-8 bytes that one of the names takes: 0 for no names.
pub open spec fn max_utf8_len(names: Seq<Seq<char>>) -> nat
    decreases names.len(),
{
    if names.len() == 0 {
        0
    } else {
        let rest = max_utf8_len(names.drop_last());
        if utf8_len(names.last()) > rest {
            utf8_len(names.last())
        } else {
            rest
        }
    }
}

/// The decimal digit for `d`.
pub open spec fn digit(d: nat) -> char {
    if d == 0 {
        '0'
    } else if d == 1 {
        '1'
    } else if d == 2 {
        '2'
    } else if d == 3 {
        '3'
    } else if d == 4 {
        '4'
    } else if d == 5 {
        '5'
    } else if d == 6 {
        '6'
    } else if d == 7 {
        '7'
    } else if d == 8 {
        '8'
    } else {
        '9'
    }
}

/// The number `n` written in decimal digits, without leading zeros.
pub open spec fn decimal(n: nat) -> Seq<char>
    decreases n,
{
    if n < 10 {
        seq![digit(n)]
    } else {
        decimal(n / 10).push(digit(n % 10))
    }
}

/// Appends `n` copies of `p` to `out`.
pub fn push_repeat(out: &mut String, p: &str, n: usize)
    ensures
        final(out)@ == old(out)@ + repeat(p@, n as nat),
{
    let mut i: usize = 0;
    assert(out@ + repeat(p@, 0) =~= out@);
    while i < n
        invariant
            i <= n,
            out@ == old(out)@ + repeat(p@, i as nat),
        decreases n - i,
    {
        out.append(p);
        assert(old(out)@ + repeat(p@, (i + 1) as nat) =~= old(out)@ + repeat(p@, i as nat) + p@);
        i += 1;
    }
}

/// Appends `s` to `out`, and spaces after it up to `width` characters.
pub fn push_padded(out: &mut String, s: &str, width: usize)
    ensures
        final(out)@ == old(out)@ + pad_right(s@, width as nat),
{
    let n = s.unicode_len();
    out.append(s);
    if n < width {
        push_repeat(out, " ", width - n);
        assert(old(out)@ + s@ + repeat(" "@, (width - n) as nat) =~= old(out)@ + (s@ + repeat(
            " "@,
            (width - n) as nat,
        )));
    }
}

/// Appends `n` in decimal digits to `out`.
pub fn push_decimal(out: &mut String, n: usize)
    ensures
        final(out)@ == old(out)@ + decimal(n as nat),
    decreases n,
{
    if n >= 10 {
        push_decimal(out, n / 10);
    }
    let d = n % 10;
    let c = if d == 0 {
        '0'
    } else if d == 1 {
        '1'
    } else if d == 2 {
        '2'
    } else if d == 3 {
        '3'
    } else if d == 4 {
        '4'
    } else if d == 5 {
        '5'
    } else if d == 6 {
        '6'
    } else if d == 7 {
        '7'
    } else if d == 8 {
        '8'
    } else {
        '9'
    };
    out.push(c);
    proof {
        if n >= 10 {
            assert(old(out)@ + decimal((n / 10) as nat).push(c) =~= (old(out)@ + decimal(
                (n / 10) as nat,
            )).push(c));
        } else {
            assert(old(out)@ + seq![c] =~= old(out)@.push(c));
        }
    }
}

/// A line without the carriage return that it may end with.
pub open spec fn strip_cr(line: Seq<char>) -> Seq<char> {
    if line.len() > 0 && line.last() == '\r' {
        line.drop_last()
    } else {
        line
    }
}

/// The lines of `s` from `pos` on. A line ends at a line feed, or at a
/// carriage return followed by one; neither belongs to the line. What follows
/// the last line feed is a line too unless it is empty.
pub open spec fn lines_from(s: Seq<char>, pos: int) -> Seq<Seq<char>>
    decreases s.len() - pos,
{
    if pos < 0 || pos >= s.len() {
        Seq::empty()
    } else {
        match s.skip(pos).index_of_first('\n') {
            Some(n) => {
                proof {
                    s.skip(pos).index_of_first_ensures('\n');
                }
                seq![strip_cr(s.subrange(pos, pos + n))] + lines_from(s, pos + n + 1)
            },
            None => seq![s.skip(pos)],
        }
    }
}

/// The lines of `s`.
pub open spec fn lines(s: Seq<char>) -> Seq<Seq<char>> {
    lines_from(s, 0)
}

/// The position of the first `c` in `s` at or after `from`, counted from `from`.
pub fn find_char_from(s: &Vec<char>, c: char, from: usize) -> (r: Option<usize>)
    requires
        from <= s.len(),
    ensures
        match r {
            Some(n) => s@.skip(from as int).index_of_first(c) == Some(n as int) && from + n
                < s.len(),
            None => s@.skip(from as int).index_of_first(c) is None,
        },
{
    let ghost rest = s@.skip(from as int);
    let mut i: usize = from;
    while i < s.len()
        invariant
            from <= i <= s.len(),
            rest == s@.skip(from as int),
            forall|j: int| 0 <= j < i - from ==> rest[j] != c,
        decreases s.len() - i,
    {
        if s[i] == c {
            proof {
                assert(rest[i - from] == c);
                rest.index_of_first_ensures(c);
                let k = rest.index_of_first(c).unwrap();
                if k < i - from {
                    assert(rest[k] != c);
                }
            }
            return Some(i - from);
        }
        i += 1;
    }
    proof {
        rest.index_of_first_ensures(c);
    }
    None
}

/// The lines of `s`.
pub fn lines_exec(s: &Vec<char>) -> (r: Vec<Vec<char>>)
    ensures
        views(r@) == lines(s@),
{
    let mut r: Vec<Vec<char>> = Vec::new();
    let mut pos: usize = 0;
    assert(views(r@) + lines_from(s@, 0) =~= lines(s@));
    while pos < s.len()
        invariant
            pos <= s.len(),
            lines(s@) == views(r@) + lines_from(s@, pos as int),
        decreases s.len() - pos,
    {
        let ghost before = views(r@);
        match find_char_from(s, '\n', pos) {
            Some(n) => {
                let end = if n > 0 && s[pos + n - 1] == '\r' {
                    pos + n - 1
                } else {
                    pos + n
                };
                let ghost raw = s@.subrange(pos as int, pos + n);
                assert(n > 0 ==> raw.last() == s@[pos + n - 1]);
                assert(strip_cr(raw) =~= s@.subrange(pos as int, end as int));
                r.push(slice_chars(s, pos, end));
                assert(views(r@) =~= before.push(strip_cr(raw)));
                assert(before + (seq![strip_cr(raw)] + lines_from(s@, pos + n + 1))
                    =~= before.push(strip_cr(raw)) + lines_from(s@, pos + n + 1));
                pos = pos + n + 1;
            },
            None => {
                r.push(slice_chars(s, pos, s.len()));
                assert(s@.skip(pos as int) =~= s@.subrange(pos as int, s.len() as int));
                assert(views(r@) =~= before.push(s@.skip(pos as int)));
                assert(before + seq![s@.skip(pos as int)] =~= before.push(s@.skip(pos as int)));
                return r;
            },
        }
    }
    assert(views(r@) + Seq::<Seq<char>>::empty() =~= views(r@));
    r
}

} // verus!
