//! Character-level helpers shared by the URL and HTTP parsers: ASCII case
//! mapping, substring search, `split_once`, line splitting and decimal numbers.
//! Text is handled as `Vec<char>`, whose view is the `Seq<char>` view of the
//! `String` or `&str` it came from.

use vstd::prelude::*;

verus! {

// ---------------------------------------------------------------------------
// Case mapping
// ---------------------------------------------------------------------------

/// ASCII lowercase of one character; other characters are left alone.
pub open spec fn lower_char(c: char) -> char {
    if 'A' <= c && c <= 'Z' {
        ((c as u32) + 32) as char
    } else {
        c
    }
}

/// ASCII uppercase of one character; other characters are left alone.
pub open spec fn upper_char(c: char) -> char {
    if 'a' <= c && c <= 'z' {
        ((c as u32) - 32) as char
    } else {
        c
    }
}

/// ASCII lowercase of a character sequence (`str::to_ascii_lowercase`).
pub open spec fn ascii_lower(s: Seq<char>) -> Seq<char> {
    s.map_values(|c: char| lower_char(c))
}

/// ASCII uppercase of a character sequence (`str::to_ascii_uppercase`).
pub open spec fn ascii_upper(s: Seq<char>) -> Seq<char> {
    s.map_values(|c: char| upper_char(c))
}

/// No ASCII uppercase letter occurs in `s`.
pub open spec fn has_no_ascii_upper(s: Seq<char>) -> bool {
    forall|i: int| 0 <= i < s.len() ==> !('A' <= #[trigger] s[i] && s[i] <= 'Z')
}

/// No ASCII lowercase letter occurs in `s`.
pub open spec fn has_no_ascii_lower(s: Seq<char>) -> bool {
    forall|i: int| 0 <= i < s.len() ==> !('a' <= #[trigger] s[i] && s[i] <= 'z')
}

// ---------------------------------------------------------------------------
// Search
// ---------------------------------------------------------------------------

/// `pat` occurs in `s` at position `i`.
pub open spec fn matches_at(s: Seq<char>, pat: Seq<char>, i: int) -> bool {
    0 <= i && i + pat.len() <= s.len() && s.subrange(i, i + pat.len()) == pat
}

/// The first position at or after `i` where `pat` occurs in `s`.
pub open spec fn find_from(s: Seq<char>, pat: Seq<char>, i: int) -> Option<int>
    decreases s.len() + 1 - i,
{
    if i < 0 || i + pat.len() > s.len() {
        None
    } else if matches_at(s, pat, i) {
        Some(i)
    } else {
        find_from(s, pat, i + 1)
    }
}

/// The first position where `pat` occurs in `s`.
pub open spec fn find(s: Seq<char>, pat: Seq<char>) -> Option<int> {
    find_from(s, pat, 0)
}

/// `str::split_once`: the text before and after the first occurrence of `pat`.
pub open spec fn split_once(s: Seq<char>, pat: Seq<char>) -> Option<(Seq<char>, Seq<char>)> {
    match find(s, pat) {
        Some(i) => Some((s.take(i), s.skip(i + pat.len()))),
        None => None,
    }
}

/// A found position is a real occurrence at or after the starting point.
pub proof fn lemma_find_from_found(s: Seq<char>, pat: Seq<char>, i: int)
    ensures
        find_from(s, pat, i) matches Some(k) ==> i <= k && matches_at(s, pat, k),
        find_from(s, pat, i) matches Some(k) ==> forall|m: int|
            i <= m < k ==> !matches_at(s, pat, m),
    decreases s.len() + 1 - i,
{
    if !(i < 0 || i + pat.len() > s.len()) && !matches_at(s, pat, i) {
        lemma_find_from_found(s, pat, i + 1);
    }
}

/// Where there is no occurrence in `[i, k)`, the search from `i` finds what
/// the search from `k` finds.
pub proof fn lemma_find_from_skip(s: Seq<char>, pat: Seq<char>, i: int, k: int)
    requires
        0 <= i <= k,
        forall|m: int| i <= m < k ==> !matches_at(s, pat, m),
    ensures
        find_from(s, pat, i) == find_from(s, pat, k),
    decreases k - i,
{
    if i < k {
        lemma_find_from_skip(s, pat, i + 1, k);
        if i + pat.len() > s.len() {
            assert(find_from(s, pat, k) is None) by {
                lemma_find_from_found(s, pat, k);
            }
        }
    }
}

/// No occurrence at or after `i` means the search from `i` fails.
pub proof fn lemma_find_from_none(s: Seq<char>, pat: Seq<char>, i: int)
    requires
        0 <= i,
        forall|m: int| i <= m ==> !matches_at(s, pat, m),
    ensures
        find_from(s, pat, i) is None,
    decreases s.len() + 1 - i,
{
    if i + pat.len() <= s.len() {
        lemma_find_from_none(s, pat, i + 1);
    }
}

/// Lowercased text holds no uppercase ASCII letter.
pub proof fn lemma_lower_has_no_upper(s: Seq<char>)
    ensures
        has_no_ascii_upper(ascii_lower(s)),
{
    assert forall|i: int| 0 <= i < ascii_lower(s).len() implies !('A' <= #[trigger] ascii_lower(
        s,
    )[i] && ascii_lower(s)[i] <= 'Z') by {
        let c = s[i];
        if 'A' <= c && c <= 'Z' {
            assert((c as u32 + 32) as char as u32 == c as u32 + 32);
        }
    }
}

/// Where the text before the pattern never holds the pattern's first
/// character, `split_once` splits right there.
pub proof fn lemma_split_once_first_char(x: Seq<char>, pat: Seq<char>, y: Seq<char>)
    requires
        pat.len() > 0,
        !x.contains(pat[0]),
    ensures
        split_once(x + pat + y, pat) == Some((x, y)),
{
    let s = x + pat + y;
    assert forall|m: int| 0 <= m < x.len() implies !matches_at(s, pat, m) by {
        if matches_at(s, pat, m) {
            assert(s.subrange(m, m + pat.len())[0] == s[m]);
            assert(s[m] == x[m]);
        }
    }
    assert(s.subrange(x.len() as int, (x.len() + pat.len()) as int) =~= pat);
    lemma_find_from_skip(s, pat, 0, x.len() as int);
    assert(find(s, pat) == Some(x.len() as int));
    assert(s.take(x.len() as int) =~= x);
    assert(s.skip((x.len() + pat.len()) as int) =~= y);
}

/// Joining lines one after the other is `Seq::flatten`.
pub proof fn lemma_concat_is_flatten(ls: Seq<Seq<char>>)
    ensures
        concat(ls) == ls.flatten(),
    decreases ls.len(),
{
    if ls.len() > 0 {
        lemma_concat_is_flatten(ls.drop_last());
        ls.drop_last().lemma_flatten_push(ls.last());
        assert(ls.drop_last().push(ls.last()) =~= ls);
    }
}

/// Uppercased text holds no lowercase ASCII letter.
pub proof fn lemma_upper_has_no_lower(s: Seq<char>)
    ensures
        has_no_ascii_lower(ascii_upper(s)),
{
    assert forall|i: int| 0 <= i < ascii_upper(s).len() implies !('a' <= #[trigger] ascii_upper(
        s,
    )[i] && ascii_upper(s)[i] <= 'z') by {
        let c = s[i];
        if 'a' <= c && c <= 'z' {
            assert((c as u32 - 32) as char as u32 == c as u32 - 32);
        }
    }
}

/// The two pieces of `split_once` are the text before and after the match.
pub proof fn lemma_split_once_pieces(s: Seq<char>, pat: Seq<char>)
    ensures
        split_once(s, pat) matches Some((a, b)) ==> {
            &&& a.len() + pat.len() + b.len() == s.len()
            &&& a == s.subrange(0, a.len() as int)
            &&& b == s.subrange(s.len() - b.len(), s.len() as int)
            &&& matches_at(s, pat, a.len() as int)
        },
{
    lemma_find_from_found(s, pat, 0);
    if let Some((a, b)) = split_once(s, pat) {
        let k = find(s, pat).unwrap();
        assert(a =~= s.subrange(0, k));
        assert(b =~= s.subrange(s.len() - b.len(), s.len() as int));
    }
}

/// Splitting at a character: the piece before holds no such character, and
/// there is no split exactly when the character does not occur.
pub proof fn lemma_split_once_char(s: Seq<char>, c: char)
    ensures
        split_once(s, seq![c]) is None <==> !s.contains(c),
        split_once(s, seq![c]) matches Some((a, b)) ==> !a.contains(c) && s == a.push(c) + b,
{
    lemma_find_from_found(s, seq![c], 0);
    if let Some((a, b)) = split_once(s, seq![c]) {
        let k = find(s, seq![c]).unwrap();
        assert forall|m: int| 0 <= m < a.len() implies a[m] != c by {
            lemma_matches_char(s, c, m);
            assert(a[m] == s[m]);
        }
        lemma_matches_char(s, c, k);
        assert(s =~= a.push(c) + b);
        assert(s[k] == c);
    } else {
        assert forall|m: int| 0 <= m < s.len() implies s[m] != c by {
            lemma_matches_char(s, c, m);
            if s[m] == c {
                lemma_find_from_reaches_match(s, seq![c], 0, m);
            }
        }
    }
}

/// Where the pattern occurs at `m`, the search from any `i <= m` succeeds.
proof fn lemma_find_from_reaches_match(s: Seq<char>, pat: Seq<char>, i: int, m: int)
    requires
        0 <= i <= m,
        matches_at(s, pat, m),
    ensures
        find_from(s, pat, i) is Some,
    decreases m - i,
{
    if i < m && !matches_at(s, pat, i) {
        lemma_find_from_reaches_match(s, pat, i + 1, m);
    }
}

/// Text appended after the first occurrence of the pattern does not move
/// that occurrence.
pub proof fn lemma_split_once_append(s: Seq<char>, t: Seq<char>, pat: Seq<char>)
    ensures
        split_once(s, pat) matches Some((a, b)) ==> split_once(s + t, pat) == Some((a, b + t)),
{
    lemma_find_from_found(s, pat, 0);
    if let Some(k) = find(s, pat) {
        let st = s + t;
        assert forall|m: int| 0 <= m < k implies !matches_at(st, pat, m) by {
            assert(!matches_at(s, pat, m));
            assert(st.subrange(m, m + pat.len()) =~= s.subrange(m, m + pat.len()));
        }
        assert(st.subrange(k, k + pat.len()) =~= s.subrange(k, k + pat.len()));
        lemma_find_from_skip(st, pat, 0, k);
        assert(find(st, pat) == Some(k));
        assert(st.take(k) =~= s.take(k));
        assert(st.skip(k + pat.len()) =~= s.skip(k + pat.len()) + t);
    }
}

// ---------------------------------------------------------------------------
// Exec helpers
// ---------------------------------------------------------------------------

/// Appends one character to a string: `String::push`.
#[verifier::external_body]
pub(crate) fn push_char(s: &mut String, c: char)
    ensures
        final(s)@ == old(s)@.push(c),
{
    s.push(c);
}

/// The characters of a string slice, in order.
pub fn chars_of(s: &str) -> (v: Vec<char>)
    ensures
        v@ == s@,
{
    let mut v: Vec<char> = Vec::new();
    for c in it: s.chars()
        invariant
            v@ == it.seq().take(it.index() as int),
    {
        v.push(c);
    }
    v
}

/// A string holding the characters `v[from..to]`.
pub fn string_of_range(v: &Vec<char>, from: usize, to: usize) -> (s: String)
    requires
        from <= to <= v.len(),
    ensures
        s@ == v@.subrange(from as int, to as int),
{
    let mut s = String::new();
    let mut i = from;
    while i < to
        invariant
            from <= i <= to <= v.len(),
            s@ == v@.subrange(from as int, i as int),
        decreases to - i,
    {
        push_char(&mut s, v[i]);
        i += 1;
        assert(s@ =~= v@.subrange(from as int, i as int));
    }
    s
}

/// A string holding the characters of `v`.
pub fn string_of(v: &Vec<char>) -> (s: String)
    ensures
        s@ == v@,
{
    let s = string_of_range(v, 0, v.len());
    assert(v@.subrange(0, v@.len() as int) =~= v@);
    s
}

/// The characters `v[from..to]`.
pub fn slice_of(v: &Vec<char>, from: usize, to: usize) -> (r: Vec<char>)
    requires
        from <= to <= v.len(),
    ensures
        r@ == v@.subrange(from as int, to as int),
{
    let mut r: Vec<char> = Vec::new();
    let mut i = from;
    while i < to
        invariant
            from <= i <= to <= v.len(),
            r@ == v@.subrange(from as int, i as int),
        decreases to - i,
    {
        r.push(v[i]);
        i += 1;
        assert(r@ =~= v@.subrange(from as int, i as int));
    }
    r
}

pub fn lower_of(c: char) -> (r: char)
    ensures
        r == lower_char(c),
{
    if 'A' <= c && c <= 'Z' {
        ((c as u8) + 32) as char
    } else {
        c
    }
}

pub fn upper_of(c: char) -> (r: char)
    ensures
        r == upper_char(c),
{
    if 'a' <= c && c <= 'z' {
        ((c as u8) - 32) as char
    } else {
        c
    }
}

/// `to_ascii_lowercase` on a character vector.
pub fn to_lower(v: &Vec<char>) -> (r: Vec<char>)
    ensures
        r@ == ascii_lower(v@),
{
    let mut r: Vec<char> = Vec::new();
    let mut i: usize = 0;
    while i < v.len()
        invariant
            i <= v.len(),
            r@ == ascii_lower(v@.take(i as int)),
        decreases v.len() - i,
    {
        r.push(lower_of(v[i]));
        i += 1;
        assert(r@ =~= ascii_lower(v@.take(i as int)));
    }
    assert(v@.take(v@.len() as int) =~= v@);
    r
}

/// `to_ascii_uppercase` on a character vector.
pub fn to_upper(v: &Vec<char>) -> (r: Vec<char>)
    ensures
        r@ == ascii_upper(v@),
{
    let mut r: Vec<char> = Vec::new();
    let mut i: usize = 0;
    while i < v.len()
        invariant
            i <= v.len(),
            r@ == ascii_upper(v@.take(i as int)),
        decreases v.len() - i,
    {
        r.push(upper_of(v[i]));
        i += 1;
        assert(r@ =~= ascii_upper(v@.take(i as int)));
    }
    assert(v@.take(v@.len() as int) =~= v@);
    r
}

/// Whether two character vectors hold the same characters.
pub fn same_chars(a: &Vec<char>, b: &Vec<char>) -> (r: bool)
    ensures
        r == (a@ == b@),
{
    if a.len() != b.len() {
        return false;
    }
    let mut i: usize = 0;
    while i < a.len()
        invariant
            i <= a.len() == b.len(),
            forall|k: int| 0 <= k < i ==> a@[k] == b@[k],
        decreases a.len() - i,
    {
        if a[i] != b[i] {
            return false;
        }
        i += 1;
    }
    assert(a@ =~= b@);
    true
}

/// Whether `pat` occurs in `s` at position `i`.
pub fn matches_at_exec(s: &Vec<char>, pat: &Vec<char>, i: usize) -> (r: bool)
    requires
        i + pat.len() <= s.len(),
    ensures
        r == matches_at(s@, pat@, i as int),
{
    let mut j: usize = 0;
    while j < pat.len()
        invariant
            j <= pat.len(),
            i + pat.len() <= s.len(),
            forall|k: int| 0 <= k < j ==> s@[i + k] == pat@[k],
        decreases pat.len() - j,
    {
        if s[i + j] != pat[j] {
            assert(s@.subrange(i as int, i + pat.len())[j as int] != pat@[j as int]);
            return false;
        }
        j += 1;
    }
    assert(s@.subrange(i as int, i + pat.len()) =~= pat@);
    true
}

/// The first position at or after `start` where `pat` occurs in `s`.
pub fn find_exec(s: &Vec<char>, pat: &Vec<char>, start: usize) -> (r: Option<usize>)
    requires
        start <= s.len(),
    ensures
        match r {
            Some(i) => find_from(s@, pat@, start as int) == Some(i as int),
            None => find_from(s@, pat@, start as int) is None,
        },
        r matches Some(i) ==> matches_at(s@, pat@, i as int),
{
    if pat.len() > s.len() {
        proof {
            lemma_find_from_none(s@, pat@, start as int);
        }
        return None;
    }
    let last = s.len() - pat.len();
    let mut i = start;
    if start > last {
        return None;
    }
    while i < last
        invariant
            start <= i <= last,
            last == s.len() - pat.len(),
            pat.len() <= s.len(),
            find_from(s@, pat@, start as int) == find_from(s@, pat@, i as int),
        decreases last - i,
    {
        if matches_at_exec(s, pat, i) {
            return Some(i);
        }
        i += 1;
    }
    if matches_at_exec(s, pat, i) {
        return Some(i);
    }
    assert(find_from(s@, pat@, i + 1) is None);
    None
}

/// `split_once` on a character vector.
pub fn split_once_exec(s: &Vec<char>, pat: &Vec<char>) -> (r: Option<(Vec<char>, Vec<char>)>)
    ensures
        match r {
            Some((a, b)) => split_once(s@, pat@) == Some((a@, b@)),
            None => split_once(s@, pat@) is None,
        },
{
    match find_exec(s, pat, 0) {
        Some(i) => {
            proof {
                lemma_find_from_found(s@, pat@, 0);
                assert(matches_at(s@, pat@, i as int));
                assert(i + pat@.len() <= s@.len());
            }
            let plen = pat.len();
            assert(i + plen <= s.len());
            let after = i + plen;
            let a = slice_of(s, 0, i);
            let b = slice_of(s, after, s.len());
            assert(a@ =~= s@.take(i as int));
            assert(b@ =~= s@.skip(i + pat.len()));
            Some((a, b))
        },
        None => None,
    }
}


// ---------------------------------------------------------------------------
// Lines
// ---------------------------------------------------------------------------

/// A line without its final carriage return, if it has one.
pub open spec fn strip_cr(t: Seq<char>) -> Seq<char> {
    if t.len() > 0 && t.last() == '\r' {
        t.drop_last()
    } else {
        t
    }
}

/// `str::lines`: the text split at each `\n`, a `\r` right before the `\n`
/// dropped with it; a final line ending yields no extra empty line, and a
/// final line without `\n` keeps any `\r` at its end.
pub open spec fn lines(s: Seq<char>) -> Seq<Seq<char>>
    decreases s.len(),
{
    if s.len() == 0 {
        Seq::empty()
    } else {
        match find(s, seq!['\n']) {
            None => seq![s],
            Some(i) => {
                proof {
                    lemma_find_from_found(s, seq!['\n'], 0);
                }
                seq![strip_cr(s.take(i))] + lines(s.skip(i + 1))
            },
        }
    }
}

/// `str::lines` ends the first line at the first `\n`, dropping a `\r`
/// right before it; text with no `\n` is one line; empty text has none.
pub proof fn lemma_lines_first_line(x: Seq<char>, y: Seq<char>)
    requires
        !x.contains('\n'),
    ensures
        lines(x + seq!['\r', '\n'] + y) == seq![x] + lines(y),
        (x.len() == 0 || x.last() != '\r') ==> lines(x + seq!['\n'] + y) == seq![x] + lines(y),
        x.len() > 0 ==> lines(x) == seq![x],
        lines(Seq::<char>::empty()) == Seq::<Seq<char>>::empty(),
{
    let xr = x.push('\r');
    assert(!xr.contains('\n')) by {
        assert forall|i: int| 0 <= i < xr.len() implies xr[i] != '\n' by {
            if i < x.len() {
                assert(xr[i] == x[i]);
            }
        }
    }
    lemma_split_once_first_char(xr, seq!['\n'], y);
    lemma_find_from_found(xr + seq!['\n'] + y, seq!['\n'], 0);
    assert(xr + seq!['\n'] + y =~= x + seq!['\r', '\n'] + y);
    let s1 = x + seq!['\r', '\n'] + y;
    assert(s1.take(xr.len() as int) =~= xr);
    assert(strip_cr(xr) =~= x);
    assert(s1.skip(xr.len() as int + 1) =~= y);
    lemma_split_once_first_char(x, seq!['\n'], y);
    lemma_find_from_found(x + seq!['\n'] + y, seq!['\n'], 0);
    let s2 = x + seq!['\n'] + y;
    assert(s2.take(x.len() as int) =~= x);
    assert(s2.skip(x.len() as int + 1) =~= y);
    lemma_split_once_char(x, '\n');
}

/// The lines concatenated with nothing in between (`Iterator::collect` into a `String`).
pub open spec fn concat(ls: Seq<Seq<char>>) -> Seq<char>
    decreases ls.len(),
{
    if ls.len() == 0 {
        Seq::empty()
    } else {
        concat(ls.drop_last()) + ls.last()
    }
}

/// The views of a sequence of character vectors.
pub open spec fn views(ls: Seq<Vec<char>>) -> Seq<Seq<char>> {
    ls.map_values(|v: Vec<char>| v@)
}

/// A one-character pattern occurs exactly where that character stands.
pub proof fn lemma_matches_char(s: Seq<char>, c: char, m: int)
    requires
        0 <= m < s.len(),
    ensures
        matches_at(s, seq![c], m) <==> s[m] == c,
{
    if s[m] == c {
        assert(s.subrange(m, m + 1) =~= seq![c]);
    } else {
        assert(s.subrange(m, m + 1)[0] != seq![c][0]);
    }
}

/// `str::lines` on a character vector.
pub fn lines_exec(s: &Vec<char>) -> (ls: Vec<Vec<char>>)
    ensures
        views(ls@) == lines(s@),
{
    let mut ls: Vec<Vec<char>> = Vec::new();
    let mut start: usize = 0;
    let mut i: usize = 0;
    let ghost nl = seq!['\n'];
    assert(s@.skip(0) =~= s@);
    while i < s.len()
        invariant
            start <= i <= s.len(),
            nl == seq!['\n'],
            lines(s@) == views(ls@) + lines(s@.skip(start as int)),
            forall|m: int| start <= m < i ==> s@[m] != '\n',
        decreases s.len() - i,
    {
        if s[i] == '\n' {
            let end = if i > start && s[i - 1] == '\r' {
                i - 1
            } else {
                i
            };
            let line = slice_of(s, start, end);
            proof {
                let t = s@.skip(start as int);
                let k = i - start;
                assert forall|m: int| 0 <= m < k implies !matches_at(t, nl, m) by {
                    lemma_matches_char(t, '\n', m);
                }
                lemma_matches_char(t, '\n', k);
                lemma_find_from_skip(t, nl, 0, k);
                assert(find(t, nl) == Some(k));
                assert(t.take(k) =~= s@.subrange(start as int, i as int));
                assert(strip_cr(t.take(k)) =~= line@);
                assert(t.skip(k + 1) =~= s@.skip(i + 1));
                assert(lines(t) == seq![line@] + lines(s@.skip(i + 1)));
                assert(views(ls@.push(line)) =~= views(ls@).push(line@));
            }
            ls.push(line);
            start = i + 1;
            proof {
                assert(lines(s@) =~= views(ls@) + lines(s@.skip(start as int)));
            }
        }
        i += 1;
    }
    let ghost t = s@.skip(start as int);
    if start < s.len() {
        let line = slice_of(s, start, s.len());
        proof {
            assert forall|m: int| 0 <= m implies !matches_at(t, nl, m) by {
                if 0 <= m < t.len() {
                    lemma_matches_char(t, '\n', m);
                }
            }
            lemma_find_from_none(t, nl, 0);
            assert(t =~= line@);
            assert(views(ls@.push(line)) =~= views(ls@).push(line@));
        }
        ls.push(line);
        proof {
            assert(lines(s@) =~= views(ls@));
        }
    } else {
        assert(t.len() == 0);
        assert(lines(s@) =~= views(ls@));
    }
    ls
}

/// The concatenation of `ls[from..]`, as a string.
pub fn concat_from(ls: &Vec<Vec<char>>, from: usize) -> (s: String)
    requires
        from <= ls.len(),
    ensures
        s@ == concat(views(ls@).skip(from as int)),
{
    let mut s = String::new();
    let mut i = from;
    let ghost v = views(ls@).skip(from as int);
    while i < ls.len()
        invariant
            from <= i <= ls.len(),
            v == views(ls@).skip(from as int),
            s@ == concat(v.take(i - from)),
        decreases ls.len() - i,
    {
        let line = &ls[i];
        let mut j: usize = 0;
        let ghost before = s@;
        while j < line.len()
            invariant
                j <= line.len(),
                s@ == before + line@.take(j as int),
            decreases line.len() - j,
        {
            push_char(&mut s, line[j]);
            j += 1;
            assert(s@ =~= before + line@.take(j as int));
        }
        proof {
            assert(line@.take(line@.len() as int) =~= line@);
            let w = v.take(i + 1 - from);
            assert(w.drop_last() =~= v.take(i - from));
            assert(w.last() == line@);
        }
        i += 1;
    }
    assert(v.take(ls.len() - from) =~= v);
    s
}

// ---------------------------------------------------------------------------
// Decimal numbers
// ---------------------------------------------------------------------------

pub open spec fn is_digit(c: char) -> bool {
    '0' <= c && c <= '9'
}

pub open spec fn all_digits(d: Seq<char>) -> bool {
    forall|i: int| 0 <= i < d.len() ==> is_digit(#[trigger] d[i])
}

/// The value of a digit character.
pub open spec fn digit_value(c: char) -> int {
    c as int - '0' as int
}

/// The value of a run of decimal digits.
pub open spec fn digits_value(d: Seq<char>) -> int
    decreases d.len(),
{
    if d.len() == 0 {
        0
    } else {
        digits_value(d.drop_last()) * 10 + digit_value(d.last())
    }
}

/// The text of an unsigned number without its optional leading `+`.
pub open spec fn unsigned_digits(t: Seq<char>) -> Seq<char> {
    if t.len() > 0 && t[0] == '+' {
        t.drop_first()
    } else {
        t
    }
}

/// `<usize as FromStr>::from_str`: an optional `+` followed by at least one
/// decimal digit, with a value that fits in `usize`.
pub open spec fn parse_usize(t: Seq<char>) -> Option<usize> {
    let d = unsigned_digits(t);
    if d.len() > 0 && all_digits(d) && digits_value(d) <= usize::MAX {
        Some(digits_value(d) as usize)
    } else {
        None
    }
}

/// The digit character for a value below ten.
pub open spec fn digit_char(d: int) -> char {
    ('0' as int + d) as char
}

/// The decimal notation of `n`, without sign or leading zeros.
pub open spec fn decimal(n: nat) -> Seq<char>
    decreases n,
{
    if n < 10 {
        seq![digit_char(n as int)]
    } else {
        decimal(n / 10).push(digit_char((n % 10) as int))
    }
}

proof fn lemma_digits_value_nonneg(d: Seq<char>)
    requires
        all_digits(d),
    ensures
        digits_value(d) >= 0,
    decreases d.len(),
{
    if d.len() > 0 {
        assert(all_digits(d.drop_last())) by {
            assert forall|i: int| 0 <= i < d.drop_last().len() implies is_digit(
                #[trigger] d.drop_last()[i],
            ) by {
                assert(is_digit(d[i]));
            }
        }
        lemma_digits_value_nonneg(d.drop_last());
        assert(is_digit(d[d.len() - 1]));
    }
}

/// A run of digits is worth at least any of its prefixes.
proof fn lemma_digits_value_prefix(d: Seq<char>, k: int)
    requires
        all_digits(d),
        0 <= k <= d.len(),
    ensures
        digits_value(d.take(k)) <= digits_value(d),
    decreases d.len(),
{
    if k < d.len() {
        let p = d.drop_last();
        assert(all_digits(p)) by {
            assert forall|i: int| 0 <= i < p.len() implies is_digit(#[trigger] p[i]) by {
                assert(is_digit(d[i]));
            }
        }
        lemma_digits_value_prefix(p, k);
        lemma_digits_value_nonneg(p);
        assert(p.take(k) =~= d.take(k));
        assert(is_digit(d[d.len() - 1]));
    } else {
        assert(d.take(k) =~= d);
    }
}

/// `<usize as FromStr>::from_str` on a character vector.
pub fn parse_usize_exec(t: &Vec<char>) -> (r: Option<usize>)
    ensures
        r == parse_usize(t@),
{
    let start: usize = if t.len() > 0 && t[0] == '+' {
        1
    } else {
        0
    };
    let ghost d = unsigned_digits(t@);
    assert(d =~= t@.skip(start as int));
    if start == t.len() {
        return None;
    }
    let mut acc: usize = 0;
    let mut i = start;
    while i < t.len()
        invariant
            start <= i <= t.len(),
            d == unsigned_digits(t@),
            d =~= t@.skip(start as int),
            all_digits(d.take(i - start)),
            acc == digits_value(d.take(i - start)),
        decreases t.len() - i,
    {
        let c = t[i];
        let k: Ghost<int> = Ghost(i - start);
        proof {
            assert(d[k@] == c);
        }
        if !('0' <= c && c <= '9') {
            assert(!is_digit(d[k@]));
            assert(!all_digits(d));
            assert(parse_usize(t@) is None);
            return None;
        }
        let dv = ((c as u32) - ('0' as u32)) as usize;
        proof {
            assert(d.take(k@ + 1).drop_last() =~= d.take(k@));
            assert(d.take(k@ + 1).last() == c);
            assert(all_digits(d.take(k@ + 1))) by {
                assert forall|m: int| 0 <= m < k@ + 1 implies is_digit(#[trigger] d.take(k@ + 1)[m]) by {
                    if m < k@ {
                        assert(d.take(k@ + 1)[m] == d.take(k@)[m]);
                    }
                }
            }
        }
        match acc.checked_mul(10) {
            None => {
                proof {
                    lemma_digits_value_nonneg(d.take(k@));
                    assert(digits_value(d.take(k@ + 1)) == acc * 10 + digit_value(c));
                    assert(acc * 10 > usize::MAX);
                    if all_digits(d) {
                        lemma_digits_value_prefix(d, k@ + 1);
                    }
                    assert(parse_usize(t@) is None);
                }
                return None;
            },
            Some(m) => match m.checked_add(dv) {
                None => {
                    proof {
                        if all_digits(d) {
                            lemma_digits_value_prefix(d, k@ + 1);
                        }
                    }
                    return None;
                },
                Some(a) => {
                    acc = a;
                },
            },
        }
        i += 1;
    }
    assert(d.take(t.len() - start) =~= d);
    Some(acc)
}

/// Appends the decimal notation of `n` to `out`.
pub fn push_decimal(out: &mut String, n: usize)
    ensures
        final(out)@ == old(out)@ + decimal(n as nat),
    decreases n,
{
    let ghost before = out@;
    if n >= 10 {
        push_decimal(out, n / 10);
    }
    let c = ((n % 10) as u8 + 48u8) as char;
    push_char(out, c);
    assert(c == digit_char((n % 10) as int));
    assert(out@ =~= before + decimal(n as nat));
}

/// The digits of a decimal notation are digits, and worth the number.
proof fn lemma_decimal_value(n: nat)
    ensures
        all_digits(decimal(n)),
        digits_value(decimal(n)) == n,
        decimal(n).len() > 0,
        decimal(n)[0] != '+',
    decreases n,
{
    if n < 10 {
        assert(digit_char(n as int) as int == '0' as int + n);
        assert(decimal(n).drop_last() =~= Seq::<char>::empty());
        assert(digits_value(decimal(n).drop_last()) == 0);
        assert(digit_value(decimal(n).last()) == n);
    } else {
        lemma_decimal_value(n / 10);
        let d = decimal(n);
        assert(d.drop_last() =~= decimal(n / 10));
        assert(digit_char((n % 10) as int) as int == '0' as int + n % 10);
        assert((n / 10) * 10 + n % 10 == n) by (nonlinear_arith);
        assert(digits_value(d.drop_last()) == n / 10);
        assert(digit_value(d.last()) == n % 10);
        assert forall|i: int| 0 <= i < d.len() implies is_digit(#[trigger] d[i]) by {
            if i < d.len() - 1 {
                assert(d[i] == decimal(n / 10)[i]);
            }
        }
        assert(d[0] == decimal(n / 10)[0]);
    }
}

/// Reading back the decimal notation of a number gives that number.
pub proof fn lemma_decimal_round_trip(n: usize)
    ensures
        parse_usize(decimal(n as nat)) == Some(n),
{
    lemma_decimal_value(n as nat);
}

/// `k` zero digits.
pub open spec fn zeros(k: nat) -> Seq<char> {
    Seq::new(k, |i: int| '0')
}

proof fn lemma_zeros_worth_nothing(k: nat, d: Seq<char>)
    ensures
        digits_value(zeros(k) + d) == digits_value(d),
    decreases d.len(), k,
{
    if d.len() == 0 {
        assert(zeros(k) + d =~= zeros(k));
        if k > 0 {
            assert(zeros(k).drop_last() =~= zeros((k - 1) as nat));
            lemma_zeros_worth_nothing((k - 1) as nat, d);
            assert(zeros((k - 1) as nat) + d =~= zeros((k - 1) as nat));
        }
    } else {
        lemma_zeros_worth_nothing(k, d.drop_last());
        assert((zeros(k) + d).drop_last() =~= zeros(k) + d.drop_last());
    }
}

/// The texts that read as a `usize`: an optional `+`, any leading zeros,
/// and the decimal notation of the number; and anything that reads is made
/// only of digits after an optional leading `+`, with at least one digit.
pub proof fn lemma_parse_usize_accepts(n: usize, k: nat, t: Seq<char>)
    ensures
        parse_usize(zeros(k) + decimal(n as nat)) == Some(n),
        parse_usize(seq!['+'] + zeros(k) + decimal(n as nat)) == Some(n),
        parse_usize(t) is Some ==> t.len() > 0 && t != seq!['+'] && forall|i: int|
            0 <= i < t.len() ==> is_digit(#[trigger] t[i]) || (i == 0 && t[i] == '+'),
{
    lemma_decimal_value(n as nat);
    lemma_zeros_worth_nothing(k, decimal(n as nat));
    let d = zeros(k) + decimal(n as nat);
    assert(all_digits(d)) by {
        assert forall|i: int| 0 <= i < d.len() implies is_digit(#[trigger] d[i]) by {
            if i >= k {
                assert(d[i] == decimal(n as nat)[i - k]);
            }
        }
    }
    if k > 0 {
        assert(d[0] == '0');
    } else {
        assert(d =~= decimal(n as nat));
    }
    assert((seq!['+'] + d).drop_first() =~= d);
    assert(seq!['+'] + zeros(k) + decimal(n as nat) =~= seq!['+'] + d);
    if parse_usize(t) is Some {
        let u = unsigned_digits(t);
        assert forall|i: int| 0 <= i < t.len() implies is_digit(#[trigger] t[i]) || (i == 0 && t[i]
            == '+') by {
            if t.len() > 0 && t[0] == '+' {
                if i > 0 {
                    assert(t[i] == u[i - 1]);
                }
            } else {
                assert(t[i] == u[i]);
            }
        }
        if t == seq!['+'] {
            assert(u.len() == 0);
        }
    }
}

} // verus!
