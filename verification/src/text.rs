//! Character-level text utilities shared by the Datalog tooling.
//!
//! Strings are handled as sequences of `char`; every routine here is stated
//! over `Seq<char>`, the view of `str` and `String`.

use vstd::prelude::*;

verus! {

// ── Specifications ──────────────────────────────────────────────────────

/// Unicode `White_Space`, the set that `str::trim` strips.
pub open spec fn is_ws(c: char) -> bool {
    ||| ('\u{9}' <= c && c <= '\u{d}')
    ||| c == ' '
    ||| c == '\u{85}'
    ||| c == '\u{a0}'
    ||| c == '\u{1680}'
    ||| ('\u{2000}' <= c && c <= '\u{200a}')
    ||| c == '\u{2028}'
    ||| c == '\u{2029}'
    ||| c == '\u{202f}'
    ||| c == '\u{205f}'
    ||| c == '\u{3000}'
}

/// `s` without its leading white space.
pub open spec fn trim_start(s: Seq<char>) -> Seq<char>
    decreases s.len(),
{
    if s.len() > 0 && is_ws(s[0]) {
        trim_start(s.drop_first())
    } else {
        s
    }
}

/// `s` without its trailing white space.
pub open spec fn trim_end(s: Seq<char>) -> Seq<char>
    decreases s.len(),
{
    if s.len() > 0 && is_ws(s.last()) {
        trim_end(s.drop_last())
    } else {
        s
    }
}

/// `s` without leading and trailing white space, as `str::trim` gives it.
pub open spec fn trim(s: Seq<char>) -> Seq<char> {
    trim_end(trim_start(s))
}

/// `s` without every trailing copy of `c`, as `str::trim_end_matches(c)`.
pub open spec fn strip_trailing(s: Seq<char>, c: char) -> Seq<char>
    decreases s.len(),
{
    if s.len() > 0 && s.last() == c {
        strip_trailing(s.drop_last(), c)
    } else {
        s
    }
}

/// `pat` occurs in `s` at position `i`.
pub open spec fn matches_at(s: Seq<char>, pat: Seq<char>, i: int) -> bool {
    &&& 0 <= i
    &&& i + pat.len() <= s.len()
    &&& s.subrange(i, i + pat.len()) == pat
}

/// The first position at or after `i` where `pat` occurs in `s`.
pub open spec fn find_from(s: Seq<char>, pat: Seq<char>, i: int) -> Option<int>
    decreases s.len() + 1 - i,
{
    if i < 0 || i + pat.len() > s.len() {
        None
    } else if s.subrange(i, i + pat.len()) == pat {
        Some(i)
    } else {
        find_from(s, pat, i + 1)
    }
}

/// The first position where `pat` occurs in `s`.
pub open spec fn find(s: Seq<char>, pat: Seq<char>) -> Option<int> {
    find_from(s, pat, 0)
}

/// `s` contains `pat`, as `str::contains`.
pub open spec fn contains(s: Seq<char>, pat: Seq<char>) -> bool {
    find(s, pat) is Some
}

/// `s` contains the character `c`.
pub open spec fn contains_char(s: Seq<char>, c: char) -> bool {
    exists|i: int| 0 <= i < s.len() && s[i] == c
}

/// `s` starts with `pat`.
pub open spec fn starts_with(s: Seq<char>, pat: Seq<char>) -> bool {
    pat.len() <= s.len() && s.subrange(0, pat.len() as int) == pat
}

/// `str::split_once(pat)`: the text before and after the first `pat`.
pub open spec fn split_once(s: Seq<char>, pat: Seq<char>) -> Option<(Seq<char>, Seq<char>)> {
    match find(s, pat) {
        Some(i) => Some((s.subrange(0, i), s.subrange(i + pat.len(), s.len() as int))),
        None => None,
    }
}

/// `str::split(pat)` for a non-empty pattern: the pieces between the
/// occurrences of `pat`, always at least one.
pub open spec fn split(s: Seq<char>, pat: Seq<char>) -> Seq<Seq<char>>
    decreases s.len(),
{
    if pat.len() == 0 {
        seq![s]
    } else {
        match find(s, pat) {
            Some(i) => {
                if i + pat.len() <= s.len() && 0 <= i {
                    seq![s.subrange(0, i)] + split(
                        s.subrange(i + pat.len(), s.len() as int),
                        pat,
                    )
                } else {
                    seq![s]
                }
            },
            None => seq![s],
        }
    }
}

/// `parts` joined by `sep`, as `[String]::join`.
pub open spec fn join(parts: Seq<Seq<char>>, sep: Seq<char>) -> Seq<char>
    decreases parts.len(),
{
    if parts.len() == 0 {
        Seq::empty()
    } else if parts.len() == 1 {
        parts[0]
    } else {
        join(parts.drop_last(), sep) + sep + parts.last()
    }
}

/// The character views of a sequence of character vectors.
pub open spec fn views(v: Seq<Vec<char>>) -> Seq<Seq<char>> {
    v.map_values(|x: Vec<char>| x@)
}

// ── Lemmas ──────────────────────────────────────────────────────────────

/// `split` always gives at least one piece.
pub proof fn lemma_split_nonempty(s: Seq<char>, pat: Seq<char>)
    ensures
        split(s, pat).len() > 0,
{
}

proof fn lemma_trim_start_skip(s: Seq<char>, k: int)
    requires
        0 <= k <= s.len(),
        forall|i: int| 0 <= i < k ==> is_ws(#[trigger] s[i]),
    ensures
        trim_start(s) == trim_start(s.subrange(k, s.len() as int)),
    decreases k,
{
    if k > 0 {
        assert(is_ws(s[0]));
        assert(s.drop_first() =~= s.subrange(1, s.len() as int));
        let t = s.drop_first();
        assert forall|i: int| 0 <= i < k - 1 implies is_ws(#[trigger] t[i]) by {
            assert(t[i] == s[i + 1]);
        }
        lemma_trim_start_skip(t, k - 1);
        assert(t.subrange(k - 1, t.len() as int) =~= s.subrange(k, s.len() as int));
    } else {
        assert(s.subrange(0, s.len() as int) =~= s);
    }
}

proof fn lemma_trim_end_skip(s: Seq<char>, k: int)
    requires
        0 <= k <= s.len(),
        forall|i: int| k <= i < s.len() ==> is_ws(#[trigger] s[i]),
    ensures
        trim_end(s) == trim_end(s.subrange(0, k)),
    decreases s.len() - k,
{
    if k < s.len() {
        assert(is_ws(s[s.len() - 1]));
        let t = s.drop_last();
        assert forall|i: int| k <= i < t.len() implies is_ws(#[trigger] t[i]) by {
            assert(t[i] == s[i]);
        }
        lemma_trim_end_skip(t, k);
        assert(t.subrange(0, k) =~= s.subrange(0, k));
    } else {
        assert(s.subrange(0, k) =~= s);
    }
}

proof fn lemma_strip_trailing_skip(s: Seq<char>, c: char, k: int)
    requires
        0 <= k <= s.len(),
        forall|i: int| k <= i < s.len() ==> #[trigger] s[i] == c,
    ensures
        strip_trailing(s, c) == strip_trailing(s.subrange(0, k), c),
    decreases s.len() - k,
{
    if k < s.len() {
        assert(s[s.len() - 1] == c);
        let t = s.drop_last();
        assert forall|i: int| k <= i < t.len() implies #[trigger] t[i] == c by {
            assert(t[i] == s[i]);
        }
        lemma_strip_trailing_skip(t, c, k);
        assert(t.subrange(0, k) =~= s.subrange(0, k));
    } else {
        assert(s.subrange(0, k) =~= s);
    }
}

/// Past the last possible position, nothing is found; before, the search
/// steps forward one position at a time.
proof fn lemma_find_from_step(s: Seq<char>, pat: Seq<char>, i: int)
    requires
        0 <= i,
        i + pat.len() <= s.len(),
        !matches_at(s, pat, i),
    ensures
        find_from(s, pat, i) == find_from(s, pat, i + 1),
{
}

/// The result of a search is a match, and no earlier position matches.
pub proof fn lemma_find_from_spec(s: Seq<char>, pat: Seq<char>, i: int)
    requires
        0 <= i,
    ensures
        find_from(s, pat, i) matches Some(j) ==> i <= j && matches_at(s, pat, j) && forall|
            k: int,
        | i <= k < j ==> !matches_at(s, pat, k),
        find_from(s, pat, i) is None ==> forall|k: int| i <= k ==> !matches_at(s, pat, k),
    decreases s.len() + 1 - i,
{
    if i + pat.len() > s.len() {
    } else if s.subrange(i, i + pat.len()) == pat {
    } else {
        lemma_find_from_spec(s, pat, i + 1);
    }
}

// ── Executable routines ─────────────────────────────────────────────────

/// Collect the characters of a string slice.
pub fn chars_of(s: &str) -> (v: Vec<char>)
    ensures
        v@ == s@,
{
    let mut v: Vec<char> = Vec::new();
    for c in it: s.chars()
        invariant
            v@ == it.seq().take(it.index() as int),
            it.seq() == s@,
    {
        v.push(c);
    }
    v
}

/// Build a `String` from characters (`FromIterator<char>` of std).
#[verifier::external_body]
pub(crate) fn string_of(v: &Vec<char>) -> (s: String)
    ensures
        s@ == v@,
{
    v.iter().collect()
}

/// The characters `v[from..to]`.
pub fn slice(v: &Vec<char>, from: usize, to: usize) -> (r: Vec<char>)
    requires
        from <= to <= v.len(),
    ensures
        r@ == v@.subrange(from as int, to as int),
{
    let mut r: Vec<char> = Vec::new();
    let mut i = from;
    while i < to
        invariant
            from <= i <= to <= v.len(),
            r@ == v@.subrange(from as int, i as int),
        decreases to - i,
    {
        r.push(v[i]);
        i += 1;
        assert(r@ =~= v@.subrange(from as int, i as int));
    }
    r
}

/// Append the characters of `src` to `dst`.
pub fn push_all(dst: &mut Vec<char>, src: &Vec<char>)
    ensures
        final(dst)@ == old(dst)@ + src@,
{
    let mut i: usize = 0;
    while i < src.len()
        invariant
            i <= src.len(),
            dst@ == old(dst)@ + src@.subrange(0, i as int),
        decreases src.len() - i,
    {
        dst.push(src[i]);
        i += 1;
        assert(dst@ =~= old(dst)@ + src@.subrange(0, i as int));
    }
    assert(src@.subrange(0, src.len() as int) =~= src@);
}

/// Append the characters of a string slice to `dst`.
pub fn push_str(dst: &mut Vec<char>, src: &str)
    ensures
        final(dst)@ == old(dst)@ + src@,
{
    let cs = chars_of(src);
    push_all(dst, &cs);
}

/// Whether `c` is Unicode white space (`char::is_whitespace`).
pub fn is_whitespace(c: char) -> (b: bool)
    ensures
        b == is_ws(c),
{
    ('\u{9}' <= c && c <= '\u{d}') || c == ' ' || c == '\u{85}' || c == '\u{a0}' || c
        == '\u{1680}' || ('\u{2000}' <= c && c <= '\u{200a}') || c == '\u{2028}' || c
        == '\u{2029}' || c == '\u{202f}' || c == '\u{205f}' || c == '\u{3000}'
}

/// `str::trim` on characters.
pub fn trim_chars(v: &Vec<char>) -> (r: Vec<char>)
    ensures
        r@ == trim(v@),
        r.len() <= v.len(),
{
    let n = v.len();
    let mut i: usize = 0;
    while i < n && is_whitespace(v[i])
        invariant
            i <= n == v.len(),
            forall|k: int| 0 <= k < i ==> is_ws(#[trigger] v@[k]),
        decreases n - i,
    {
        i += 1;
    }
    proof {
        lemma_trim_start_skip(v@, i as int);
        let t = v@.subrange(i as int, n as int);
        if t.len() > 0 {
            assert(t[0] == v@[i as int]);
        }
    }
    let mut j: usize = n;
    while j > i && is_whitespace(v[j - 1])
        invariant
            i <= j <= n == v.len(),
            forall|k: int| j <= k < n ==> is_ws(#[trigger] v@[k]),
        decreases j,
    {
        j -= 1;
    }
    proof {
        let t = v@.subrange(i as int, n as int);
        assert forall|k: int| j - i <= k < t.len() implies is_ws(#[trigger] t[k]) by {
            assert(t[k] == v@[k + i]);
        }
        lemma_trim_end_skip(t, j - i);
        assert(t.subrange(0, j - i) =~= v@.subrange(i as int, j as int));
        let u = v@.subrange(i as int, j as int);
        if u.len() > 0 {
            assert(u.last() == v@[j - 1]);
        }
    }
    slice(v, i, j)
}

/// `str::trim_end_matches(c)` for a single character.
pub fn strip_trailing_chars(v: &Vec<char>, c: char) -> (r: Vec<char>)
    ensures
        r@ == strip_trailing(v@, c),
        r.len() <= v.len(),
{
    let n = v.len();
    let mut j: usize = n;
    while j > 0 && v[j - 1] == c
        invariant
            j <= n == v.len(),
            forall|k: int| j <= k < n ==> #[trigger] v@[k] == c,
        decreases j,
    {
        j -= 1;
    }
    proof {
        lemma_strip_trailing_skip(v@, c, j as int);
        let u = v@.subrange(0, j as int);
        if u.len() > 0 {
            assert(u.last() == v@[j - 1]);
        }
    }
    slice(v, 0, j)
}

/// Whether `pat` occurs in `v` at position `i`.
pub fn matches_at_exec(v: &Vec<char>, pat: &Vec<char>, i: usize) -> (b: bool)
    ensures
        b == matches_at(v@, pat@, i as int),
{
    if pat.len() > v.len() || i > v.len() - pat.len() {
        return false;
    }
    let mut k: usize = 0;
    while k < pat.len()
        invariant
            i + pat.len() <= v.len(),
            k <= pat.len(),
            forall|m: int| 0 <= m < k ==> v@[i + m] == pat@[m],
        decreases pat.len() - k,
    {
        if v[i + k] != pat[k] {
            assert(v@.subrange(i as int, i + pat.len())[k as int] != pat@[k as int]);
            return false;
        }
        k += 1;
    }
    assert(v@.subrange(i as int, i + pat.len()) =~= pat@);
    true
}

/// The first position of `pat` in `v` (`str::find`).
pub fn find_exec(v: &Vec<char>, pat: &Vec<char>) -> (r: Option<usize>)
    ensures
        r matches Some(i) ==> find(v@, pat@) == Some(i as int),
        r is None ==> find(v@, pat@) is None,
{
    if pat.len() > v.len() {
        return None;
    }
    let last = v.len() - pat.len();
    let mut i: usize = 0;
    while i <= last
        invariant
            last + pat.len() == v.len(),
            i <= last + 1,
            find(v@, pat@) == find_from(v@, pat@, i as int),
        decreases last + 1 - i,
    {
        if matches_at_exec(v, pat, i) {
            return Some(i);
        }
        proof {
            lemma_find_from_step(v@, pat@, i as int);
        }
        if i == last {
            assert(find_from(v@, pat@, i + 1) is None);
            return None;
        }
        i += 1;
    }
    None
}

/// Whether `pat` occurs in `v` (`str::contains`).
pub fn contains_exec(v: &Vec<char>, pat: &Vec<char>) -> (b: bool)
    ensures
        b == contains(v@, pat@),
{
    find_exec(v, pat).is_some()
}

/// Whether two character sequences are equal.
pub fn text_eq(a: &Vec<char>, b: &Vec<char>) -> (r: bool)
    ensures
        r == (a@ == b@),
{
    if a.len() != b.len() {
        return false;
    }
    let mut i: usize = 0;
    while i < a.len()
        invariant
            a.len() == b.len(),
            i <= a.len(),
            forall|k: int| 0 <= k < i ==> a@[k] == b@[k],
        decreases a.len() - i,
    {
        if a[i] != b[i] {
            return false;
        }
        i += 1;
    }
    assert(a@ =~= b@);
    true
}

/// Whether `x` is one of the sequences in `v`.
pub fn contains_text(v: &Vec<Vec<char>>, x: &Vec<char>) -> (r: bool)
    ensures
        r == views(v@).contains(x@),
{
    let mut i: usize = 0;
    while i < v.len()
        invariant
            i <= v.len(),
            forall|k: int| 0 <= k < i ==> v@[k]@ != x@,
        decreases v.len() - i,
    {
        if text_eq(&v[i], x) {
            assert(views(v@)[i as int] == x@);
            return true;
        }
        i += 1;
    }
    assert forall|k: int| 0 <= k < views(v@).len() implies views(v@)[k] != x@ by {
        assert(views(v@)[k] == v@[k]@);
    }
    false
}

/// The characters of each string.
pub fn strings_chars(v: &Vec<String>) -> (r: Vec<Vec<char>>)
    ensures
        views(r@) == v@.map_values(|s: String| s@),
{
    let ghost target = v@.map_values(|s: String| s@);
    let mut r: Vec<Vec<char>> = Vec::new();
    let mut i: usize = 0;
    while i < v.len()
        invariant
            i <= v.len(),
            target == v@.map_values(|s: String| s@),
            views(r@) == target.subrange(0, i as int),
        decreases v.len() - i,
    {
        let x = chars_of(v[i].as_str());
        assert(x@ == target[i as int]);
        let ghost rv = views(r@);
        r.push(x);
        assert(views(r@) =~= rv.push(x@));
        assert(target.subrange(0, i + 1) =~= target.subrange(0, i as int).push(target[i as int]));
        i += 1;
    }
    assert(target.subrange(0, v.len() as int) =~= target);
    r
}

/// Copy a vector of character sequences.
pub fn clone_texts(v: &Vec<Vec<char>>) -> (r: Vec<Vec<char>>)
    ensures
        views(r@) == views(v@),
{
    let mut r: Vec<Vec<char>> = Vec::new();
    let mut i: usize = 0;
    while i < v.len()
        invariant
            i <= v.len(),
            views(r@) == views(v@).subrange(0, i as int),
        decreases v.len() - i,
    {
        let x = slice(&v[i], 0, v[i].len());
        assert(x@ =~= v@[i as int]@);
        let ghost rv = views(r@);
        r.push(x);
        assert(views(r@) =~= rv.push(x@));
        assert(views(v@).subrange(0, i + 1) =~= views(v@).subrange(0, i as int).push(v@[i as int]@));
        i += 1;
    }
    assert(views(v@).subrange(0, v.len() as int) =~= views(v@));
    r
}

/// Whether the character `c` occurs in `v`.
pub fn contains_char_exec(v: &Vec<char>, c: char) -> (b: bool)
    ensures
        b == contains_char(v@, c),
{
    let mut i: usize = 0;
    while i < v.len()
        invariant
            i <= v.len(),
            forall|k: int| 0 <= k < i ==> v@[k] != c,
        decreases v.len() - i,
    {
        if v[i] == c {
            return true;
        }
        i += 1;
    }
    false
}

/// Whether `v` starts with `pat`.
pub fn starts_with_exec(v: &Vec<char>, pat: &Vec<char>) -> (b: bool)
    ensures
        b == starts_with(v@, pat@),
{
    matches_at_exec(v, pat, 0)
}

/// `str::split_once(pat)`.
pub fn split_once_exec(v: &Vec<char>, pat: &Vec<char>) -> (r: Option<(Vec<char>, Vec<char>)>)
    ensures
        r matches Some((a, b)) ==> split_once(v@, pat@) == Some((a@, b@)) && a.len() <= v.len()
            && b.len() <= v.len(),
        r is None ==> split_once(v@, pat@) is None,
{
    match find_exec(v, pat) {
        Some(i) => {
            proof {
                lemma_find_from_spec(v@, pat@, 0);
                assert(matches_at(v@, pat@, i as int));
                assert(i as int + pat.len() as int <= v.len() as int);
            }
            let a = slice(v, 0, i);
            let end = i + pat.len();
            let b = slice(v, end, v.len());
            Some((a, b))
        },
        None => None,
    }
}

/// `str::split(pat)` for a non-empty pattern.
pub fn split_exec(v: &Vec<char>, pat: &Vec<char>) -> (r: Vec<Vec<char>>)
    requires
        pat.len() > 0,
    ensures
        views(r@) == split(v@, pat@),
{
    let mut parts: Vec<Vec<char>> = Vec::new();
    let mut rest = slice(v, 0, v.len());
    assert(v@.subrange(0, v.len() as int) =~= v@);
    loop
        invariant
            pat.len() > 0,
            split(v@, pat@) == views(parts@) + split(rest@, pat@),
        decreases rest.len(),
    {
        match find_exec(&rest, pat) {
            Some(i) => {
                proof {
                    lemma_find_from_spec(rest@, pat@, 0);
                    assert(matches_at(rest@, pat@, i as int));
                }
                let a = slice(&rest, 0, i);
                let b = slice(&rest, i + pat.len(), rest.len());
                let ghost old_parts = parts@;
                let ghost av = a@;
                parts.push(a);
                assert(views(parts@) =~= views(old_parts).push(av));
                assert(split(v@, pat@) =~= views(parts@) + split(b@, pat@));
                rest = b;
            },
            None => {
                let ghost old_parts = parts@;
                let ghost rv = rest@;
                parts.push(rest);
                assert(views(parts@) =~= views(old_parts).push(rv));
                assert(split(v@, pat@) =~= views(parts@));
                return parts;
            },
        }
    }
}

/// `[String]::join(sep)` on character sequences.
pub fn join_exec(parts: &Vec<Vec<char>>, sep: &Vec<char>) -> (r: Vec<char>)
    ensures
        r@ == join(views(parts@), sep@),
{
    let mut r: Vec<char> = Vec::new();
    let mut i: usize = 0;
    while i < parts.len()
        invariant
            i <= parts.len(),
            r@ == join(views(parts@).subrange(0, i as int), sep@),
        decreases parts.len() - i,
    {
        let ghost pre = views(parts@).subrange(0, i as int);
        if i > 0 {
            push_all(&mut r, sep);
        }
        push_all(&mut r, &parts[i]);
        let ghost post = views(parts@).subrange(0, i + 1);
        assert(post.drop_last() =~= pre);
        if i == 0 {
            assert(post.len() == 1);
        }
        i += 1;
    }
    assert(views(parts@).subrange(0, parts.len() as int) =~= views(parts@));
    r
}


// ── Case mapping (std) ──────────────────────────────────────────────────

/// What `str::to_lowercase` returns for a string with these characters.
pub uninterp spec fn str_lowercase(s: Seq<char>) -> Seq<char>;

/// What `str::to_uppercase` returns for a string with these characters.
pub uninterp spec fn str_uppercase(s: Seq<char>) -> Seq<char>;

/// Every character is ASCII.
pub open spec fn is_ascii_seq(s: Seq<char>) -> bool {
    forall|i: int| 0 <= i < s.len() ==> #[trigger] s[i] < '\u{80}'
}

/// ASCII lowercase of one character.
pub open spec fn ascii_lower_char(c: char) -> char {
    if 'A' <= c && c <= 'Z' {
        ((c as u32) + 32) as char
    } else {
        c
    }
}

/// ASCII uppercase of one character.
pub open spec fn ascii_upper_char(c: char) -> char {
    if 'a' <= c && c <= 'z' {
        ((c as u32) - 32) as char
    } else {
        c
    }
}

/// ASCII lowercase of a sequence.
pub open spec fn ascii_lower(s: Seq<char>) -> Seq<char> {
    s.map_values(|c: char| ascii_lower_char(c))
}

/// ASCII uppercase of a sequence.
pub open spec fn ascii_upper(s: Seq<char>) -> Seq<char> {
    s.map_values(|c: char| ascii_upper_char(c))
}

/// `str::to_lowercase` (std). The Unicode lowercase mapping is named, not
/// written out; on ASCII text it is the ASCII mapping, as std documents.
#[verifier::external_body]
pub(crate) fn to_lowercase(v: &Vec<char>) -> (r: Vec<char>)
    ensures
        r@ == str_lowercase(v@),
        is_ascii_seq(v@) ==> r@ == ascii_lower(v@),
{
    let s: String = v.iter().collect();
    s.to_lowercase().chars().collect()
}

/// `str::to_uppercase` (std). The Unicode uppercase mapping is named, not
/// written out; on ASCII text it is the ASCII mapping, as std documents.
#[verifier::external_body]
pub(crate) fn to_uppercase(v: &Vec<char>) -> (r: Vec<char>)
    ensures
        r@ == str_uppercase(v@),
        is_ascii_seq(v@) ==> r@ == ascii_upper(v@),
{
    let s: String = v.iter().collect();
    s.to_uppercase().chars().collect()
}

// ── Debug formatting (std) ──────────────────────────────────────────────

/// What `Debug` writes for a string with these characters.
pub uninterp spec fn str_debug(s: Seq<char>) -> Seq<char>;

/// Printable ASCII other than `"` and `\\`: characters that `Debug` for
/// strings writes unescaped.
pub open spec fn is_plain_debug(s: Seq<char>) -> bool {
    forall|i: int|
        0 <= i < s.len() ==> ' ' <= #[trigger] s[i] && s[i] <= '~' && s[i] != '"' && s[i] != '\\'
}

/// `Debug` for `str` (std): the text in double quotes with characters
/// escaped as `char::escape_debug` does; named, not written out. Printable
/// ASCII other than `"` and `\\` is written as it is.
#[verifier::external_body]
pub(crate) fn debug_str(s: &str) -> (r: String)
    ensures
        r@ == str_debug(s@),
        is_plain_debug(s@) ==> r@ == seq!['"'] + s@ + seq!['"'],
{
    format!("{:?}", s)
}

// ── Decimal numbers ─────────────────────────────────────────────────────

/// The ASCII digit for `d < 10`.
pub open spec fn digit_char(d: nat) -> char {
    (48 + d) as char
}

/// A character in `'0'..='9'`.
pub open spec fn is_digit(c: char) -> bool {
    '0' <= c && c <= '9'
}

/// Every character is a decimal digit.
pub open spec fn all_digits(s: Seq<char>) -> bool {
    forall|i: int| 0 <= i < s.len() ==> is_digit(#[trigger] s[i])
}

/// The decimal representation of `n`, as `Display` for unsigned integers.
pub open spec fn decimal(n: nat) -> Seq<char>
    decreases n,
{
    if n < 10 {
        seq![digit_char(n)]
    } else {
        decimal(n / 10).push(digit_char(n % 10))
    }
}

/// The decimal representation of `n` (`u64` formatting).
pub fn decimal_chars(n: u64) -> (r: Vec<char>)
    ensures
        r@ == decimal(n as nat),
    decreases n,
{
    let d = (n % 10) as u8;
    let c = (48 + d) as char;
    assert(c == digit_char((n % 10) as nat));
    if n < 10 {
        let mut r: Vec<char> = Vec::new();
        r.push(c);
        assert(r@ =~= seq![digit_char(n as nat)]);
        r
    } else {
        let mut r = decimal_chars(n / 10);
        r.push(c);
        r
    }
}

// ── Floating-point literal syntax (std) ─────────────────────────────────

/// `Digit+ | Digit+ '.' Digit* | Digit* '.' Digit+`
pub open spec fn is_decimal_mantissa(m: Seq<char>) -> bool {
    ||| (m.len() >= 1 && all_digits(m))
    ||| exists|i: int|
        0 <= i < m.len() && m[i] == '.' && all_digits(m.subrange(0, i)) && all_digits(
            m.subrange(i + 1, m.len() as int),
        ) && m.len() >= 2
}

/// `Sign? Digit+`
pub open spec fn is_exponent_digits(x: Seq<char>) -> bool {
    if x.len() > 0 && (x[0] == '+' || x[0] == '-') {
        x.len() >= 2 && all_digits(x.drop_first())
    } else {
        x.len() >= 1 && all_digits(x)
    }
}

/// The position of the first `e` or `E`.
pub open spec fn first_exp_marker(s: Seq<char>, i: int) -> Option<int>
    decreases s.len() - i,
{
    if i < 0 || i >= s.len() {
        None
    } else if s[i] == 'e' || s[i] == 'E' {
        Some(i)
    } else {
        first_exp_marker(s, i + 1)
    }
}

/// `Number ::= Mantissa Exp?` of std's float grammar.
pub open spec fn is_float_number(s: Seq<char>) -> bool {
    match first_exp_marker(s, 0) {
        None => is_decimal_mantissa(s),
        Some(e) => is_decimal_mantissa(s.subrange(0, e)) && is_exponent_digits(
            s.subrange(e + 1, s.len() as int),
        ),
    }
}

/// The text that `str::parse::<f64>` accepts: `Sign? ('inf' | 'infinity' |
/// 'nan' | Number)`, the words in any case, as the std documentation gives
/// the grammar.
pub open spec fn is_float_literal(s: Seq<char>) -> bool {
    let body = if s.len() > 0 && (s[0] == '+' || s[0] == '-') {
        s.drop_first()
    } else {
        s
    };
    ||| ascii_lower(body) == seq!['i', 'n', 'f']
    ||| ascii_lower(body) == seq!['i', 'n', 'f', 'i', 'n', 'i', 't', 'y']
    ||| ascii_lower(body) == seq!['n', 'a', 'n']
    ||| is_float_number(body)
}

/// Whether a character is an ASCII digit.
pub fn is_digit_exec(c: char) -> (b: bool)
    ensures
        b == is_digit(c),
{
    '0' <= c && c <= '9'
}

fn all_digits_range(v: &Vec<char>, from: usize, to: usize) -> (b: bool)
    requires
        from <= to <= v.len(),
    ensures
        b == all_digits(v@.subrange(from as int, to as int)),
{
    let mut i = from;
    while i < to
        invariant
            from <= i <= to <= v.len(),
            forall|k: int| from <= k < i ==> is_digit(#[trigger] v@[k]),
        decreases to - i,
    {
        if !is_digit_exec(v[i]) {
            assert(v@.subrange(from as int, to as int)[i - from] == v@[i as int]);
            return false;
        }
        i += 1;
    }
    assert forall|k: int| 0 <= k < to - from implies is_digit(
        #[trigger] v@.subrange(from as int, to as int)[k],
    ) by {
        assert(v@.subrange(from as int, to as int)[k] == v@[k + from]);
    }
    true
}

fn is_mantissa_range(v: &Vec<char>, from: usize, to: usize) -> (b: bool)
    requires
        from <= to <= v.len(),
    ensures
        b == is_decimal_mantissa(v@.subrange(from as int, to as int)),
{
    let ghost m = v@.subrange(from as int, to as int);
    // Locate the first '.'.
    let mut i = from;
    while i < to && v[i] != '.'
        invariant
            from <= i <= to <= v.len(),
            forall|k: int| from <= k < i ==> v@[k] != '.',
        decreases to - i,
    {
        i += 1;
    }
    if i == to {
        let b = to - from >= 1 && all_digits_range(v, from, to);
        proof {
            if !b {
                assert forall|j: int|
                    !(0 <= j < m.len() && m[j] == '.' && all_digits(m.subrange(0, j))
                        && all_digits(m.subrange(j + 1, m.len() as int)) && m.len() >= 2) by {
                    if 0 <= j < m.len() && m[j] == '.' {
                        assert(m[j] == v@[j + from]);
                    }
                }
            }
        }
        b
    } else {
        let ghost j = i - from;
        assert(m[j] == '.');
        let left = all_digits_range(v, from, i);
        let right = all_digits_range(v, i + 1, to);
        assert(m.subrange(0, j) =~= v@.subrange(from as int, i as int));
        assert(m.subrange(j + 1, m.len() as int) =~= v@.subrange(i + 1, to as int));
        let b = left && right && to - from >= 2;
        proof {
            // A mantissa with a '.' is not all digits.
            assert(!all_digits(m));
            if !b {
                assert forall|k: int|
                    !(0 <= k < m.len() && m[k] == '.' && all_digits(m.subrange(0, k))
                        && all_digits(m.subrange(k + 1, m.len() as int)) && m.len() >= 2) by {
                    if 0 <= k < m.len() && m[k] == '.' && all_digits(m.subrange(0, k))
                        && all_digits(m.subrange(k + 1, m.len() as int)) {
                        if k < j {
                            assert(m.subrange(k + 1, m.len() as int)[j - k - 1] == m[j]);
                        } else if k > j {
                            assert(m.subrange(0, k)[j] == m[j]);
                        }
                    }
                }
            }
        }
        b
    }
}

proof fn lemma_first_exp_marker(s: Seq<char>, i: int)
    requires
        0 <= i,
    ensures
        first_exp_marker(s, i) matches Some(e) ==> i <= e < s.len() && (s[e] == 'e' || s[e]
            == 'E') && forall|k: int| i <= k < e ==> s[k] != 'e' && s[k] != 'E',
        first_exp_marker(s, i) is None ==> forall|k: int|
            i <= k < s.len() ==> s[k] != 'e' && s[k] != 'E',
    decreases s.len() - i,
{
    if i < s.len() && !(s[i] == 'e' || s[i] == 'E') {
        lemma_first_exp_marker(s, i + 1);
    }
}

fn eq_lower_literal(v: &Vec<char>, from: usize, word: &Vec<char>) -> (b: bool)
    requires
        from <= v.len(),
    ensures
        b == (ascii_lower(v@.subrange(from as int, v.len() as int)) == word@),
{
    let ghost body = v@.subrange(from as int, v.len() as int);
    if v.len() - from != word.len() {
        assert(ascii_lower(body).len() != word@.len());
        return false;
    }
    let mut k: usize = 0;
    while k < word.len()
        invariant
            from + word.len() == v.len(),
            k <= word.len(),
            body == v@.subrange(from as int, v.len() as int),
            forall|m: int| 0 <= m < k ==> ascii_lower_char(#[trigger] v@[from + m]) == word@[m],
        decreases word.len() - k,
    {
        let c = v[from + k];
        let u = c as u32;
        let lc = if 'A' <= c && c <= 'Z' {
            ((u + 32) as u8) as char
        } else {
            c
        };
        assert(lc == ascii_lower_char(c));
        if lc != word[k] {
            assert(ascii_lower(body)[k as int] == ascii_lower_char(body[k as int]));
            assert(body[k as int] == v@[from + k]);
            return false;
        }
        k += 1;
    }
    assert forall|m: int| 0 <= m < word.len() implies ascii_lower(body)[m] == word@[m] by {
        assert(body[m] == v@[from + m]);
    }
    assert(ascii_lower(body) =~= word@);
    true
}

/// Whether `str::parse::<f64>` accepts the text.
pub fn is_float_literal_exec(v: &Vec<char>) -> (b: bool)
    ensures
        b == is_float_literal(v@),
{
    let from: usize = if v.len() > 0 && (v[0] == '+' || v[0] == '-') {
        1
    } else {
        0
    };
    let ghost body = if v@.len() > 0 && (v@[0] == '+' || v@[0] == '-') {
        v@.drop_first()
    } else {
        v@
    };
    assert(body =~= v@.subrange(from as int, v.len() as int));
    let inf: Vec<char> = vec!['i', 'n', 'f'];
    let infinity: Vec<char> = vec!['i', 'n', 'f', 'i', 'n', 'i', 't', 'y'];
    let nan: Vec<char> = vec!['n', 'a', 'n'];
    assert(inf@ =~= seq!['i', 'n', 'f']);
    assert(infinity@ =~= seq!['i', 'n', 'f', 'i', 'n', 'i', 't', 'y']);
    assert(nan@ =~= seq!['n', 'a', 'n']);
    if eq_lower_literal(v, from, &inf) || eq_lower_literal(v, from, &infinity)
        || eq_lower_literal(v, from, &nan) {
        return true;
    }
    // Number: find the exponent marker.
    let mut e = from;
    while e < v.len() && v[e] != 'e' && v[e] != 'E'
        invariant
            from <= e <= v.len(),
            forall|k: int| from <= k < e ==> v@[k] != 'e' && v@[k] != 'E',
        decreases v.len() - e,
    {
        e += 1;
    }
    proof {
        lemma_first_exp_marker(body, 0);
        assert forall|k: int| 0 <= k < e - from implies body[k] != 'e' && body[k] != 'E' by {
            assert(body[k] == v@[k + from]);
        }
        if e < v.len() {
            assert(body[e - from] == v@[e as int]);
        }
    }
    if e == v.len() {
        proof {
            if let Some(x) = first_exp_marker(body, 0) {
                assert(body[x] == v@[x + from]);
            }
        }
        is_mantissa_range(v, from, e)
    } else {
        proof {
            if let Some(x) = first_exp_marker(body, 0) {
                if x < e - from {
                    assert(body[x] == v@[x + from]);
                }
            }
            assert(first_exp_marker(body, 0) == Some(e - from));
        }
        let m = is_mantissa_range(v, from, e);
        assert(body.subrange(0, e - from) =~= v@.subrange(from as int, e as int));
        let ghost x = body.subrange(e - from + 1, body.len() as int);
        assert(x =~= v@.subrange(e + 1, v.len() as int));
        let x_ok = if e + 1 < v.len() && (v[e + 1] == '+' || v[e + 1] == '-') {
            assert(x.drop_first() =~= v@.subrange(e + 2, v.len() as int));
            v.len() - (e + 1) >= 2 && all_digits_range(v, e + 2, v.len())
        } else {
            v.len() - (e + 1) >= 1 && all_digits_range(v, e + 1, v.len())
        };
        m && x_ok
    }
}

// ── Ordering of text ────────────────────────────────────────────────────

/// Lexicographic `<=` on code points, the order of `String`'s `Ord`.
pub open spec fn lex_le(a: Seq<char>, b: Seq<char>) -> bool
    decreases a.len(),
{
    if a.len() == 0 {
        true
    } else if b.len() == 0 {
        false
    } else if a[0] < b[0] {
        true
    } else if a[0] > b[0] {
        false
    } else {
        lex_le(a.drop_first(), b.drop_first())
    }
}

/// Lexicographic `<` on code points.
pub open spec fn lex_lt(a: Seq<char>, b: Seq<char>) -> bool {
    lex_le(a, b) && a != b
}

proof fn lemma_lex_le_suffix(a: Seq<char>, b: Seq<char>, k: int)
    requires
        0 <= k <= a.len(),
        k <= b.len(),
        a.subrange(0, k) == b.subrange(0, k),
    ensures
        lex_le(a, b) == lex_le(a.subrange(k, a.len() as int), b.subrange(k, b.len() as int)),
    decreases k,
{
    if k == 0 {
        assert(a.subrange(0, a.len() as int) =~= a);
        assert(b.subrange(0, b.len() as int) =~= b);
    } else {
        assert(a[0] == a.subrange(0, k)[0]);
        assert(b[0] == b.subrange(0, k)[0]);
        let a1 = a.drop_first();
        let b1 = b.drop_first();
        assert(a1.subrange(0, k - 1) =~= a.subrange(0, k).drop_first());
        assert(b1.subrange(0, k - 1) =~= b.subrange(0, k).drop_first());
        lemma_lex_le_suffix(a1, b1, k - 1);
        assert(a1.subrange(k - 1, a1.len() as int) =~= a.subrange(k, a.len() as int));
        assert(b1.subrange(k - 1, b1.len() as int) =~= b.subrange(k, b.len() as int));
    }
}

/// `a <= b` in the order of `String`'s `Ord`.
pub fn lex_le_exec(a: &Vec<char>, b: &Vec<char>) -> (r: bool)
    ensures
        r == lex_le(a@, b@),
{
    let mut i: usize = 0;
    while i < a.len() && i < b.len() && a[i] == b[i]
        invariant
            i <= a.len(),
            i <= b.len(),
            a@.subrange(0, i as int) == b@.subrange(0, i as int),
        decreases a.len() - i,
    {
        assert(a@.subrange(0, i + 1) =~= a@.subrange(0, i as int).push(a@[i as int]));
        assert(b@.subrange(0, i + 1) =~= b@.subrange(0, i as int).push(b@[i as int]));
        i += 1;
    }
    proof {
        lemma_lex_le_suffix(a@, b@, i as int);
    }
    let ghost sa = a@.subrange(i as int, a.len() as int);
    let ghost sb = b@.subrange(i as int, b.len() as int);
    if i == a.len() {
        assert(sa.len() == 0);
        true
    } else if i == b.len() {
        assert(sa.len() > 0 && sb.len() == 0);
        false
    } else {
        assert(sa.len() > 0 && sb.len() > 0);
        assert(sa[0] == a@[i as int]);
        assert(sb[0] == b@[i as int]);
        assert(a@[i as int] != b@[i as int]);
        a[i] < b[i]
    }
}

// ── Stable insertion by key ─────────────────────────────────────────────

/// Insert `x` into `s` after every element whose key is not greater than
/// `x`'s key, scanning from the back; on a sorted `s` this is the position
/// that a stable sort gives the later element.
pub open spec fn insert_by_key(s: Seq<(Seq<char>, Seq<char>)>, x: (Seq<char>, Seq<char>)) -> Seq<
    (Seq<char>, Seq<char>),
>
    decreases s.len(),
{
    if s.len() == 0 {
        seq![x]
    } else if !lex_lt(x.0, s.last().0) {
        s.push(x)
    } else {
        insert_by_key(s.drop_last(), x).push(s.last())
    }
}

/// Stable sort of `(key, item)` pairs by key, in the order of `String`'s
/// `Ord` (what `slice::sort_by` with a key comparison gives).
pub open spec fn sort_by_key(s: Seq<(Seq<char>, Seq<char>)>) -> Seq<(Seq<char>, Seq<char>)>
    decreases s.len(),
{
    if s.len() == 0 {
        s
    } else {
        insert_by_key(sort_by_key(s.drop_last()), s.last())
    }
}

/// The views of `(key, item)` pairs.
pub open spec fn pair_views(v: Seq<(Vec<char>, Vec<char>)>) -> Seq<(Seq<char>, Seq<char>)> {
    v.map_values(|p: (Vec<char>, Vec<char>)| (p.0@, p.1@))
}

/// Whether `a < b` in the order of `String`'s `Ord`.
pub fn lex_lt_exec(a: &Vec<char>, b: &Vec<char>) -> (r: bool)
    ensures
        r == lex_lt(a@, b@),
{
    let le = lex_le_exec(a, b);
    if !le {
        return false;
    }
    // Equal sequences have equal lengths and characters.
    if a.len() != b.len() {
        return true;
    }
    let mut i: usize = 0;
    while i < a.len()
        invariant
            a.len() == b.len(),
            i <= a.len(),
            lex_le(a@, b@),
            forall|k: int| 0 <= k < i ==> a@[k] == b@[k],
        decreases a.len() - i,
    {
        if a[i] != b[i] {
            assert(a@[i as int] != b@[i as int]);
            return true;
        }
        i += 1;
    }
    assert(a@ =~= b@);
    false
}

/// Stable sort of `(key, item)` pairs by key.
pub fn sort_pairs_by_key(v: Vec<(Vec<char>, Vec<char>)>) -> (r: Vec<(Vec<char>, Vec<char>)>)
    ensures
        pair_views(r@) == sort_by_key(pair_views(v@)),
{
    let mut sorted: Vec<(Vec<char>, Vec<char>)> = Vec::new();
    let mut rest = v;
    let ghost orig = pair_views(rest@);
    // Process the elements front to back by reversing into a stack.
    let mut stack: Vec<(Vec<char>, Vec<char>)> = Vec::new();
    while rest.len() > 0
        invariant
            orig == pair_views(rest@) + pair_views(stack@).reverse(),
        decreases rest.len(),
    {
        let x = rest.pop().unwrap();
        let ghost xv = (x.0@, x.1@);
        let ghost st = stack@;
        stack.push(x);
        assert(pair_views(stack@) =~= pair_views(st).push(xv));
        assert(pair_views(stack@).reverse() =~= seq![xv] + pair_views(st).reverse());
        assert(orig =~= pair_views(rest@) + pair_views(stack@).reverse());
    }
    assert(orig =~= pair_views(stack@).reverse());
    let ghost done: Seq<(Seq<char>, Seq<char>)> = Seq::empty();
    while stack.len() > 0
        invariant
            orig == done + pair_views(stack@).reverse(),
            pair_views(sorted@) == sort_by_key(done),
        decreases stack.len(),
    {
        let x = stack.pop().unwrap();
        let ghost xv = (x.0@, x.1@);
        proof {
            assert(pair_views(stack@.push(x)).reverse() =~= seq![xv] + pair_views(
                stack@,
            ).reverse());
        }
        // Insert x into `sorted` from the back.
        let ghost before = pair_views(sorted@);
        let mut tail: Vec<(Vec<char>, Vec<char>)> = Vec::new();
        let mut go = sorted.len() > 0 && lex_lt_exec(&x.0, &sorted[sorted.len() - 1].0);
        while go
            invariant
                xv == (x.0@, x.1@),
                insert_by_key(before, xv) == insert_by_key(pair_views(sorted@), xv) + pair_views(
                    tail@,
                ).reverse(),
                go == (sorted.len() > 0 && lex_lt(xv.0, pair_views(sorted@).last().0)),
            decreases sorted.len(),
        {
            let ghost sv = pair_views(sorted@);
            let y = sorted.pop().unwrap();
            let ghost yv = (y.0@, y.1@);
            let ghost tl = tail@;
            assert(sv.last() == yv);
            assert(sv.drop_last() =~= pair_views(sorted@));
            assert(insert_by_key(sv, xv) == insert_by_key(sv.drop_last(), xv).push(sv.last()));
            tail.push(y);
            assert(pair_views(tail@) =~= pair_views(tl).push(yv));
            assert(pair_views(tail@).reverse() =~= seq![yv] + pair_views(tl).reverse());
            assert(insert_by_key(before, xv) =~= insert_by_key(pair_views(sorted@), xv)
                + pair_views(tail@).reverse());
            go = sorted.len() > 0 && lex_lt_exec(&x.0, &sorted[sorted.len() - 1].0);
        }
        let ghost sv = pair_views(sorted@);
        sorted.push(x);
        assert(pair_views(sorted@) =~= sv.push(xv));
        assert(insert_by_key(sv, xv) == sv.push(xv));
        // Put the tail back.
        while tail.len() > 0
            invariant
                insert_by_key(before, xv) == pair_views(sorted@) + pair_views(tail@).reverse(),
            decreases tail.len(),
        {
            let y = tail.pop().unwrap();
            let ghost yv = (y.0@, y.1@);
            let ghost s0 = pair_views(sorted@);
            assert(pair_views(tail@.push(y)).reverse() =~= seq![yv] + pair_views(
                tail@,
            ).reverse());
            sorted.push(y);
            assert(pair_views(sorted@) =~= s0.push(yv));
            assert(s0 + (seq![yv] + pair_views(tail@).reverse()) =~= pair_views(sorted@)
                + pair_views(tail@).reverse());
        }
        assert(pair_views(sorted@) =~= insert_by_key(before, xv));
        proof {
            let d2 = done.push(xv);
            assert(d2.drop_last() =~= done);
            assert(sort_by_key(d2) == insert_by_key(sort_by_key(done), xv));
            assert(orig =~= d2 + pair_views(stack@).reverse());
            done = d2;
        }
    }
    assert(done =~= orig);
    sorted
}

// ── Order of text and sorting laws ──────────────────────────────────────

/// `lex_le` is reflexive.
pub proof fn lemma_lex_le_refl(a: Seq<char>)
    ensures
        lex_le(a, a),
    decreases a.len(),
{
    if a.len() > 0 {
        lemma_lex_le_refl(a.drop_first());
    }
}

/// `lex_le` is total.
pub proof fn lemma_lex_le_total(a: Seq<char>, b: Seq<char>)
    ensures
        lex_le(a, b) || lex_le(b, a),
    decreases a.len(),
{
    if a.len() > 0 && b.len() > 0 && a[0] == b[0] {
        lemma_lex_le_total(a.drop_first(), b.drop_first());
    }
}

/// `lex_le` is transitive.
pub proof fn lemma_lex_le_trans(a: Seq<char>, b: Seq<char>, c: Seq<char>)
    requires
        lex_le(a, b),
        lex_le(b, c),
    ensures
        lex_le(a, c),
    decreases a.len(),
{
    if a.len() > 0 && b.len() > 0 && c.len() > 0 && a[0] == b[0] && b[0] == c[0] {
        lemma_lex_le_trans(a.drop_first(), b.drop_first(), c.drop_first());
    }
}

/// `lex_le` is antisymmetric.
pub proof fn lemma_lex_le_antisym(a: Seq<char>, b: Seq<char>)
    requires
        lex_le(a, b),
        lex_le(b, a),
    ensures
        a == b,
    decreases a.len(),
{
    if a.len() > 0 && b.len() > 0 {
        lemma_lex_le_antisym(a.drop_first(), b.drop_first());
        assert(a =~= seq![a[0]] + a.drop_first());
        assert(b =~= seq![b[0]] + b.drop_first());
    }
}

/// The pairs are ordered by key.
pub open spec fn sorted_by_key(s: Seq<(Seq<char>, Seq<char>)>) -> bool {
    forall|i: int, j: int| 0 <= i < j < s.len() ==> lex_le(#[trigger] s[i].0, #[trigger] s[j].0)
}

proof fn lemma_insert_bounded(t: Seq<(Seq<char>, Seq<char>)>, x: (Seq<char>, Seq<char>), b: Seq<char>)
    requires
        forall|k: int| 0 <= k < t.len() ==> lex_le(#[trigger] t[k].0, b),
        lex_le(x.0, b),
    ensures
        forall|k: int|
            0 <= k < insert_by_key(t, x).len() ==> lex_le(#[trigger] insert_by_key(t, x)[k].0, b),
    decreases t.len(),
{
    let r = insert_by_key(t, x);
    if t.len() == 0 {
        assert(r == seq![x]);
        assert forall|k: int| 0 <= k < r.len() implies lex_le(#[trigger] r[k].0, b) by {
            assert(r[k] == x);
        }
    } else if !lex_lt(x.0, t.last().0) {
        assert(r == t.push(x));
        assert forall|k: int| 0 <= k < r.len() implies lex_le(#[trigger] r[k].0, b) by {
            if k < t.len() {
                assert(r[k] == t[k]);
            } else {
                assert(r[k] == x);
            }
        }
    } else {
        let t0 = t.drop_last();
        assert forall|k: int| 0 <= k < t0.len() implies lex_le(#[trigger] t0[k].0, b) by {
            assert(t0[k] == t[k]);
        }
        lemma_insert_bounded(t0, x, b);
        let r0 = insert_by_key(t0, x);
        assert(r == r0.push(t.last()));
        assert forall|k: int| 0 <= k < r.len() implies lex_le(#[trigger] r[k].0, b) by {
            if k < r0.len() {
                assert(r[k] == r0[k]);
            } else {
                assert(r[k] == t[t.len() - 1]);
            }
        }
    }
}

proof fn lemma_insert_sorted(t: Seq<(Seq<char>, Seq<char>)>, x: (Seq<char>, Seq<char>))
    requires
        sorted_by_key(t),
    ensures
        sorted_by_key(insert_by_key(t, x)),
        insert_by_key(t, x).to_multiset() == t.to_multiset().insert(x),
    decreases t.len(),
{
    broadcast use vstd::seq_lib::group_to_multiset_ensures;

    if t.len() == 0 {
        assert(seq![x] =~= Seq::<(Seq<char>, Seq<char>)>::empty().push(x));
    } else if !lex_lt(x.0, t.last().0) {
        lemma_lex_le_total(x.0, t.last().0);
        if x.0 == t.last().0 {
            lemma_lex_le_refl(x.0);
        }
        let r = t.push(x);
        assert forall|i: int, j: int| 0 <= i < j < r.len() implies lex_le(#[trigger] r[i].0, #[trigger] r[j].0) by {
            if j == t.len() {
                if i < t.len() - 1 {
                    lemma_lex_le_trans(t[i].0, t.last().0, x.0);
                }
            }
        }
    } else {
        let t0 = t.drop_last();
        assert(sorted_by_key(t0));
        lemma_insert_sorted(t0, x);
        let r0 = insert_by_key(t0, x);
        assert forall|k: int| 0 <= k < t0.len() implies lex_le(#[trigger] t0[k].0, t.last().0) by {
            assert(t0[k] == t[k]);
        }
        lemma_insert_bounded(t0, x, t.last().0);
        let r = r0.push(t.last());
        assert forall|i: int, j: int| 0 <= i < j < r.len() implies lex_le(#[trigger] r[i].0, #[trigger] r[j].0) by {
            if j == r0.len() {
                assert(r[i] == r0[i]);
            } else {
                assert(r[i] == r0[i]);
                assert(r[j] == r0[j]);
            }
        }
        assert(t =~= t0.push(t.last()));
    }
}

/// Sorting by key orders the pairs by key and keeps every pair: the
/// result is a permutation of the input.
pub proof fn lemma_sort_by_key(s: Seq<(Seq<char>, Seq<char>)>)
    ensures
        sorted_by_key(sort_by_key(s)),
        sort_by_key(s).to_multiset() == s.to_multiset(),
    decreases s.len(),
{
    broadcast use vstd::seq_lib::group_to_multiset_ensures;

    if s.len() > 0 {
        lemma_sort_by_key(s.drop_last());
        lemma_insert_sorted(sort_by_key(s.drop_last()), s.last());
        assert(s =~= s.drop_last().push(s.last()));
    }
}

/// Every pair holds its own item as key.
pub open spec fn self_keyed_pairs(s: Seq<(Seq<char>, Seq<char>)>) -> bool {
    forall|i: int| 0 <= i < s.len() ==> (#[trigger] s[i]).0 == s[i].1
}

proof fn lemma_last_is_max(s: Seq<(Seq<char>, Seq<char>)>, x: (Seq<char>, Seq<char>))
    requires
        sorted_by_key(s),
        s.len() > 0,
        s.to_multiset().count(x) > 0,
    ensures
        lex_le(x.0, s.last().0),
{
    broadcast use vstd::seq_lib::group_to_multiset_ensures;

    assert(s.contains(x));
    let k = choose|k: int| 0 <= k < s.len() && s[k] == x;
    if k < s.len() - 1 {
        assert(lex_le(s[k].0, s[s.len() - 1].0));
    } else {
        lemma_lex_le_refl(x.0);
    }
}

/// Two sequences of self-keyed pairs that are sorted and hold the same
/// pairs are equal.
pub proof fn lemma_sorted_unique(a: Seq<(Seq<char>, Seq<char>)>, b: Seq<(Seq<char>, Seq<char>)>)
    requires
        sorted_by_key(a),
        sorted_by_key(b),
        self_keyed_pairs(a),
        self_keyed_pairs(b),
        a.to_multiset() == b.to_multiset(),
    ensures
        a == b,
    decreases a.len(),
{
    broadcast use vstd::seq_lib::group_to_multiset_ensures;

    assert(a.len() == a.to_multiset().len());
    assert(b.len() == b.to_multiset().len());
    if a.len() == 0 {
        assert(a =~= b);
    } else {
        let la = a.last();
        let lb = b.last();
        assert(a.contains(la));
        assert(b.contains(lb));
        assert(b.to_multiset().count(la) > 0);
        assert(a.to_multiset().count(lb) > 0);
        lemma_last_is_max(b, la);
        lemma_last_is_max(a, lb);
        lemma_lex_le_antisym(la.0, lb.0);
        assert(la == lb);
        let a0 = a.drop_last();
        let b0 = b.drop_last();
        assert(a =~= a0.push(la));
        assert(b =~= b0.push(lb));
        assert(a0.to_multiset() =~= a.to_multiset().remove(la));
        assert(b0.to_multiset() =~= b.to_multiset().remove(lb));
        lemma_sorted_unique(a0, b0);
    }
}

/// No two pairs share a key.
pub open spec fn keys_distinct(s: Seq<(Seq<char>, Seq<char>)>) -> bool {
    forall|i: int, j: int| 0 <= i < j < s.len() ==> (#[trigger] s[i]).0 != (#[trigger] s[j]).0
}

proof fn lemma_count_at_most_one(a: Seq<(Seq<char>, Seq<char>)>, x: (Seq<char>, Seq<char>))
    requires
        keys_distinct(a),
    ensures
        a.to_multiset().count(x) <= 1,
    decreases a.len(),
{
    broadcast use vstd::seq_lib::group_to_multiset_ensures;

    if a.len() > 0 {
        let a0 = a.drop_last();
        assert(keys_distinct(a0)) by {
            assert forall|i: int, j: int| 0 <= i < j < a0.len() implies (#[trigger] a0[i]).0 != (
            #[trigger] a0[j]).0 by {
                assert(a0[i] == a[i] && a0[j] == a[j]);
            }
        }
        lemma_count_at_most_one(a0, x);
        assert(a =~= a0.push(a.last()));
        if a.last() == x {
            if a0.contains(x) {
                let k = choose|k: int| 0 <= k < a0.len() && a0[k] == x;
                assert(a[k] == x && a[a.len() - 1] == x);
            }
            assert(a0.to_multiset().count(x) == 0);
        }
    }
}

proof fn lemma_count_at_least_two(b: Seq<(Seq<char>, Seq<char>)>, i: int, j: int)
    requires
        0 <= i < j < b.len(),
        b[i] == b[j],
    ensures
        b.to_multiset().count(b[i]) >= 2,
    decreases b.len(),
{
    broadcast use vstd::seq_lib::group_to_multiset_ensures;

    let b0 = b.drop_last();
    assert(b =~= b0.push(b.last()));
    if j == b.len() - 1 {
        assert(b0[i] == b[i]);
        assert(b0.contains(b[i]));
    } else {
        assert(b0[i] == b[i] && b0[j] == b[j]);
        lemma_count_at_least_two(b0, i, j);
    }
}

/// Pairs with distinct keys keep them distinct in any rearrangement.
pub proof fn lemma_keys_distinct_transfer(a: Seq<(Seq<char>, Seq<char>)>, b: Seq<(Seq<char>, Seq<char>)>)
    requires
        keys_distinct(a),
        a.to_multiset() == b.to_multiset(),
    ensures
        keys_distinct(b),
{
    broadcast use vstd::seq_lib::group_to_multiset_ensures;

    assert forall|i: int, j: int| 0 <= i < j < b.len() implies (#[trigger] b[i]).0 != (#[trigger] b[j]).0 by {
        if b[i].0 == b[j].0 {
            if b[i] == b[j] {
                lemma_count_at_least_two(b, i, j);
                lemma_count_at_most_one(a, b[i]);
            } else {
                assert(b.contains(b[i]) && b.contains(b[j]));
                assert(a.to_multiset().count(b[i]) > 0 && a.to_multiset().count(b[j]) > 0);
                let p = choose|p: int| 0 <= p < a.len() && a[p] == b[i];
                let q = choose|q: int| 0 <= q < a.len() && a[q] == b[j];
                if p < q {
                    assert(a[p].0 != a[q].0);
                } else {
                    assert(a[q].0 != a[p].0);
                }
            }
        }
    }
}

/// Two sorted sequences with the same pairs and no key twice are equal.
pub proof fn lemma_sorted_unique_keys(a: Seq<(Seq<char>, Seq<char>)>, b: Seq<(Seq<char>, Seq<char>)>)
    requires
        sorted_by_key(a),
        sorted_by_key(b),
        keys_distinct(a),
        a.to_multiset() == b.to_multiset(),
    ensures
        a == b,
    decreases a.len(),
{
    broadcast use vstd::seq_lib::group_to_multiset_ensures;

    lemma_keys_distinct_transfer(a, b);
    assert(a.len() == a.to_multiset().len());
    assert(b.len() == b.to_multiset().len());
    if a.len() == 0 {
        assert(a =~= b);
    } else {
        let la = a.last();
        let lb = b.last();
        assert(a.contains(la));
        assert(b.contains(lb));
        assert(b.to_multiset().count(la) > 0);
        assert(a.to_multiset().count(lb) > 0);
        lemma_last_is_max(b, la);
        lemma_last_is_max(a, lb);
        lemma_lex_le_antisym(la.0, lb.0);
        assert(b.contains(la));
        let k = choose|k: int| 0 <= k < b.len() && b[k] == la;
        if k < b.len() - 1 {
            assert(b[k].0 != b[b.len() - 1].0);
        }
        assert(la == lb);
        let a0 = a.drop_last();
        let b0 = b.drop_last();
        assert(a =~= a0.push(la));
        assert(b =~= b0.push(lb));
        assert(a0.to_multiset() =~= a.to_multiset().remove(la));
        assert(b0.to_multiset() =~= b.to_multiset().remove(lb));
        assert(keys_distinct(a0)) by {
            assert forall|i: int, j: int| 0 <= i < j < a0.len() implies (#[trigger] a0[i]).0 != (
            #[trigger] a0[j]).0 by {
                assert(a0[i] == a[i] && a0[j] == a[j]);
            }
        }
        lemma_sorted_unique_keys(a0, b0);
    }
}

/// A position that `find` gives is in bounds.
pub proof fn lemma_find_in_bounds(s: Seq<char>, pat: Seq<char>)
    ensures
        find(s, pat) matches Some(i) ==> 0 <= i && i + pat.len() <= s.len(),
{
    lemma_find_from_spec(s, pat, 0);
}

proof fn lemma_trim_start_ascii(s: Seq<char>)
    requires
        is_ascii_seq(s),
    ensures
        is_ascii_seq(trim_start(s)),
    decreases s.len(),
{
    if s.len() > 0 && is_ws(s[0]) {
        let t = s.drop_first();
        assert forall|i: int| 0 <= i < t.len() implies #[trigger] t[i] < '\u{80}' by {
            assert(t[i] == s[i + 1]);
        }
        lemma_trim_start_ascii(t);
    }
}

proof fn lemma_trim_end_ascii(s: Seq<char>)
    requires
        is_ascii_seq(s),
    ensures
        is_ascii_seq(trim_end(s)),
    decreases s.len(),
{
    if s.len() > 0 && is_ws(s.last()) {
        let t = s.drop_last();
        assert forall|i: int| 0 <= i < t.len() implies #[trigger] t[i] < '\u{80}' by {
            assert(t[i] == s[i]);
        }
        lemma_trim_end_ascii(t);
    }
}

/// Trimming ASCII text leaves ASCII text.
pub proof fn lemma_trim_ascii(s: Seq<char>)
    requires
        is_ascii_seq(s),
    ensures
        is_ascii_seq(trim(s)),
{
    lemma_trim_start_ascii(s);
    lemma_trim_end_ascii(trim_start(s));
}

} // verus!
