//! Text handling over character sequences: the pieces of `str`'s API that the
//! parsers of this crate use (`trim`, `lines`, `split_once`, `split_whitespace`,
//! prefix and substring tests), each stated over `Seq<char>`.
use vstd::prelude::*;

verus! {

// ───────────────────────────── characters ─────────────────────────────

/// The Unicode `White_Space` property, which `char::is_whitespace`,
/// `str::trim` and `str::split_whitespace` go by.
pub open spec fn is_ws(c: char) -> bool {
    let u = c as u32;
    ||| 0x09 <= u <= 0x0D
    ||| u == 0x20 || u == 0x85 || u == 0xA0 || u == 0x1680
    ||| 0x2000 <= u <= 0x200A
    ||| u == 0x2028 || u == 0x2029 || u == 0x202F || u == 0x205F || u == 0x3000
}

/// Whether `c` is white space.
pub fn is_whitespace(c: char) -> (r: bool)
    ensures
        r == is_ws(c),
{
    let u = c as u32;
    (0x09 <= u && u <= 0x0D) || u == 0x20 || u == 0x85 || u == 0xA0 || u == 0x1680 || (0x2000
        <= u && u <= 0x200A) || u == 0x2028 || u == 0x2029 || u == 0x202F || u == 0x205F || u
        == 0x3000
}

// ───────────────────────────── conversions ─────────────────────────────

/// The characters of `s`, in order.
pub fn chars_of(s: &str) -> (v: Vec<char>)
    ensures
        v@ == s@,
{
    broadcast use vstd::string::group_string_axioms;

    let mut v: Vec<char> = Vec::new();
    for c in it: s.chars()
        invariant
            v@ == it.seq().take(it.index()),
            it.seq() == s@,
    {
        v.push(c);
    }
    v
}

/// The string made of the characters of `v`.
///
/// Calls `String`'s `FromIterator<&char>`; the contract claims that the string
/// holds exactly those characters, in order, as the standard library documents.
#[verifier::external_body]
pub(crate) fn string_from_chars(v: &Vec<char>) -> (s: String)
    ensures
        s@ == v@,
{
    v.iter().collect()
}

/// An owned copy of a string slice.
pub fn owned(s: &str) -> (r: String)
    ensures
        r@ == s@,
{
    s.to_owned()
}

/// The characters of `v` from `lo` up to (not including) `hi`.
pub fn subvec(v: &Vec<char>, lo: usize, hi: usize) -> (r: Vec<char>)
    requires
        lo <= hi <= v.len(),
    ensures
        r@ == v@.subrange(lo as int, hi as int),
{
    let mut r: Vec<char> = Vec::new();
    let mut i = lo;
    while i < hi
        invariant
            lo <= i <= hi <= v.len(),
            r@ == v@.subrange(lo as int, i as int),
        decreases hi - i,
    {
        r.push(v[i]);
        i += 1;
    }
    r
}

/// Whether `v` holds exactly the characters of `lit`.
pub fn eq_str(v: &Vec<char>, lit: &str) -> (r: bool)
    ensures
        r == (v@ == lit@),
{
    let w = chars_of(lit);
    eq_chars(v, &w)
}

/// Whether two character vectors are equal.
pub fn eq_chars(v: &Vec<char>, w: &Vec<char>) -> (r: bool)
    ensures
        r == (v@ == w@),
{
    if v.len() != w.len() {
        return false;
    }
    let mut i: usize = 0;
    while i < v.len()
        invariant
            v.len() == w.len(),
            i <= v.len(),
            forall|k: int| 0 <= k < i ==> v@[k] == w@[k],
        decreases v.len() - i,
    {
        if v[i] != w[i] {
            return false;
        }
        i += 1;
    }
    assert(v@ =~= w@);
    true
}

// ───────────────────────────── trimming ─────────────────────────────

/// `s` without its leading white space.
pub open spec fn trimmed_start(s: Seq<char>) -> Seq<char>
    decreases s.len(),
{
    if s.len() > 0 && is_ws(s[0]) {
        trimmed_start(s.drop_first())
    } else {
        s
    }
}

/// `s` without its trailing white space.
pub open spec fn trimmed_end(s: Seq<char>) -> Seq<char>
    decreases s.len(),
{
    if s.len() > 0 && is_ws(s.last()) {
        trimmed_end(s.drop_last())
    } else {
        s
    }
}

/// `s` without leading and trailing white space, as `str::trim` gives it.
pub open spec fn trimmed(s: Seq<char>) -> Seq<char> {
    trimmed_end(trimmed_start(s))
}

proof fn lemma_trimmed_start_skip(s: Seq<char>, k: int)
    requires
        0 <= k <= s.len(),
        forall|i: int| 0 <= i < k ==> is_ws(#[trigger] s[i]),
        k == s.len() || !is_ws(s[k]),
    ensures
        trimmed_start(s) == s.skip(k),
    decreases k,
{
    if k == 0 {
        assert(s.skip(0) =~= s);
    } else {
        assert(is_ws(s[0]));
        let t = s.drop_first();
        assert forall|i: int| 0 <= i < k - 1 implies is_ws(#[trigger] t[i]) by {
            assert(t[i] == s[i + 1]);
        }
        lemma_trimmed_start_skip(t, k - 1);
        assert(t.skip(k - 1) =~= s.skip(k));
    }
}

proof fn lemma_trimmed_end_take(s: Seq<char>, k: int)
    requires
        0 <= k <= s.len(),
        forall|i: int| k <= i < s.len() ==> is_ws(#[trigger] s[i]),
        k == 0 || !is_ws(s[k - 1]),
    ensures
        trimmed_end(s) == s.take(k),
    decreases s.len() - k,
{
    if k == s.len() {
        assert(s.take(k) =~= s);
    } else {
        assert(is_ws(s.last()));
        let t = s.drop_last();
        lemma_trimmed_end_take(t, k);
        assert(t.take(k) =~= s.take(k));
    }
}

/// `s` without leading and trailing white space.
pub fn trim(s: &Vec<char>) -> (r: Vec<char>)
    ensures
        r@ == trimmed(s@),
{
    let mut a: usize = 0;
    while a < s.len() && is_whitespace(s[a])
        invariant
            a <= s.len(),
            forall|i: int| 0 <= i < a ==> is_ws(#[trigger] s@[i]),
        decreases s.len() - a,
    {
        a += 1;
    }
    let mut b: usize = s.len();
    while b > a && is_whitespace(s[b - 1])
        invariant
            a <= b <= s.len(),
            forall|i: int| b <= i < s.len() ==> is_ws(#[trigger] s@[i]),
        decreases b - a,
    {
        b -= 1;
    }
    proof {
        lemma_trimmed_start_skip(s@, a as int);
        let t = s@.skip(a as int);
        assert forall|i: int| (b - a) <= i < t.len() implies is_ws(#[trigger] t[i]) by {
            assert(t[i] == s@[i + a]);
        }
        lemma_trimmed_end_take(t, b - a);
        assert(t.take(b - a) =~= s@.subrange(a as int, b as int));
    }
    subvec(s, a, b)
}

// ───────────────────────────── searching ─────────────────────────────

/// The index of the first `c` in `s`, or the length of `s` if there is none.
pub open spec fn index_of(s: Seq<char>, c: char) -> nat
    decreases s.len(),
{
    if s.len() == 0 {
        0
    } else if s[0] == c {
        0
    } else {
        1 + index_of(s.drop_first(), c)
    }
}

/// What characterises `index_of`.
pub proof fn lemma_index_of(s: Seq<char>, c: char)
    ensures
        index_of(s, c) <= s.len(),
        forall|i: int| 0 <= i < index_of(s, c) ==> s[i] != c,
        index_of(s, c) < s.len() ==> s[index_of(s, c) as int] == c,
    decreases s.len(),
{
    if s.len() > 0 && s[0] != c {
        lemma_index_of(s.drop_first(), c);
        assert forall|i: int| 0 <= i < index_of(s, c) implies s[i] != c by {
            if i > 0 {
                assert(s[i] == s.drop_first()[i - 1]);
            }
        }
    }
}

proof fn lemma_index_of_is(s: Seq<char>, c: char, k: int)
    requires
        0 <= k <= s.len(),
        forall|i: int| 0 <= i < k ==> #[trigger] s[i] != c,
        k == s.len() || s[k] == c,
    ensures
        index_of(s, c) == k,
{
    lemma_index_of(s, c);
    if index_of(s, c) < k {
        assert(s[index_of(s, c) as int] != c);
    }
    if index_of(s, c) > k {
        assert(s[k] != c);
    }
}

/// The index of the first `c` in `v` at or after `from`, or `v.len()`.
pub fn find_char_from(v: &Vec<char>, c: char, from: usize) -> (r: usize)
    requires
        from <= v.len(),
    ensures
        r == from + index_of(v@.skip(from as int), c),
        from <= r <= v.len(),
{
    let mut j = from;
    while j < v.len() && v[j] != c
        invariant
            from <= j <= v.len(),
            forall|k: int| from <= k < j ==> v@[k] != c,
        decreases v.len() - j,
    {
        j += 1;
    }
    proof {
        let t = v@.skip(from as int);
        assert forall|i: int| 0 <= i < j - from implies #[trigger] t[i] != c by {
            assert(t[i] == v@[i + from]);
        }
        lemma_index_of_is(t, c, j - from);
    }
    j
}

/// The two parts of `s` around its first `c`, as `str::split_once` gives them.
pub open spec fn split_once_at(s: Seq<char>, c: char) -> Option<(Seq<char>, Seq<char>)> {
    let i = index_of(s, c);
    if i < s.len() {
        Some((s.take(i as int), s.skip(i as int + 1)))
    } else {
        None
    }
}

/// The two parts of `v` around its first `c`.
pub fn split_once(v: &Vec<char>, c: char) -> (r: Option<(Vec<char>, Vec<char>)>)
    ensures
        r matches Some((a, b)) ==> split_once_at(v@, c) == Some((a@, b@)),
        r is None ==> split_once_at(v@, c) is None,
{
    let j = find_char_from(v, c, 0);
    assert(v@.skip(0) =~= v@);
    if j < v.len() {
        let a = subvec(v, 0, j);
        let b = subvec(v, j + 1, v.len());
        assert(a@ =~= v@.take(j as int));
        assert(b@ =~= v@.skip(j + 1));
        Some((a, b))
    } else {
        None
    }
}

// ───────────────────────────── lines ─────────────────────────────

/// A line without the `'\r'` of a `"\r\n"` ending.
pub open spec fn strip_cr(l: Seq<char>) -> Seq<char> {
    if l.len() > 0 && l.last() == '\r' {
        l.drop_last()
    } else {
        l
    }
}

/// The lines of `s`, as `str::lines` gives them: split at `'\n'`, a `'\r'`
/// before the `'\n'` dropped, and no empty line after a final `'\n'`.
pub open spec fn lines_of(s: Seq<char>) -> Seq<Seq<char>>
    decreases s.len(),
{
    if s.len() == 0 {
        seq![]
    } else {
        let i = index_of(s, '\n');
        if i < s.len() {
            seq![strip_cr(s.take(i as int))] + lines_of(s.skip(i as int + 1))
        } else {
            seq![s]
        }
    }
}

/// The character sequences held by a sequence of character vectors.
pub open spec fn views(v: Seq<Vec<char>>) -> Seq<Seq<char>> {
    v.map_values(|l: Vec<char>| l@)
}

/// The lines of `v`.
pub fn lines(v: &Vec<char>) -> (r: Vec<Vec<char>>)
    ensures
        views(r@) == lines_of(v@),
{
    let mut out: Vec<Vec<char>> = Vec::new();
    let mut pos: usize = 0;
    assert(v@.skip(0) =~= v@);
    while pos < v.len()
        invariant
            pos <= v.len(),
            views(out@) + lines_of(v@.skip(pos as int)) == lines_of(v@),
        decreases v.len() - pos,
    {
        let ghost rest = v@.skip(pos as int);
        let j = find_char_from(v, '\n', pos);
        let ghost old_out = views(out@);
        if j == v.len() {
            let line = subvec(v, pos, j);
            assert(line@ =~= rest);
            out.push(line);
            assert(views(out@) =~= old_out.push(rest));
            assert(v@.skip(j as int) =~= Seq::<char>::empty());
            assert(lines_of(v@.skip(j as int)) =~= Seq::<Seq<char>>::empty());
            pos = j;
        } else {
            let end = if j > pos && v[j - 1] == '\r' {
                j - 1
            } else {
                j
            };
            let line = subvec(v, pos, end);
            assert(line@ =~= strip_cr(rest.take(j - pos)));
            out.push(line);
            assert(views(out@) =~= old_out.push(line@));
            assert(rest.skip(j - pos + 1) =~= v@.skip(j + 1));
            assert(views(out@) + lines_of(v@.skip(j + 1)) =~= old_out + lines_of(rest));
            pos = j + 1;
        }
    }
    assert(v@.skip(pos as int) =~= Seq::<char>::empty());
    assert(views(out@) + lines_of(v@.skip(pos as int)) =~= views(out@));
    out
}

// ───────────────────────────── words ─────────────────────────────

/// The index of the first white space in `s`, or its length if there is none.
pub open spec fn ws_index(s: Seq<char>) -> nat
    decreases s.len(),
{
    if s.len() == 0 {
        0
    } else if is_ws(s[0]) {
        0
    } else {
        1 + ws_index(s.drop_first())
    }
}

pub proof fn lemma_ws_index(s: Seq<char>)
    ensures
        ws_index(s) <= s.len(),
        forall|i: int| 0 <= i < ws_index(s) ==> !is_ws(#[trigger] s[i]),
        ws_index(s) < s.len() ==> is_ws(s[ws_index(s) as int]),
    decreases s.len(),
{
    if s.len() > 0 && !is_ws(s[0]) {
        lemma_ws_index(s.drop_first());
        assert forall|i: int| 0 <= i < ws_index(s) implies !is_ws(#[trigger] s[i]) by {
            if i > 0 {
                assert(s[i] == s.drop_first()[i - 1]);
            }
        }
    }
}

proof fn lemma_ws_index_is(s: Seq<char>, k: int)
    requires
        0 <= k <= s.len(),
        forall|i: int| 0 <= i < k ==> !is_ws(#[trigger] s[i]),
        k == s.len() || is_ws(s[k]),
    ensures
        ws_index(s) == k,
{
    lemma_ws_index(s);
    if ws_index(s) < k {
        assert(!is_ws(s[ws_index(s) as int]));
    }
    if ws_index(s) > k {
        assert(!is_ws(s[k]));
    }
}

/// The white-space separated words of `s`, as `str::split_whitespace` gives them.
pub open spec fn words_of(s: Seq<char>) -> Seq<Seq<char>>
    decreases s.len(),
{
    if s.len() == 0 {
        seq![]
    } else if is_ws(s[0]) {
        words_of(s.drop_first())
    } else {
        let k = ws_index(s);
        proof {
            lemma_ws_index(s);
        }
        seq![s.take(k as int)] + words_of(s.skip(k as int))
    }
}

/// The white-space separated words of `v`.
pub fn split_whitespace(v: &Vec<char>) -> (r: Vec<Vec<char>>)
    ensures
        views(r@) == words_of(v@),
{
    let mut out: Vec<Vec<char>> = Vec::new();
    let mut pos: usize = 0;
    assert(v@.skip(0) =~= v@);
    while pos < v.len()
        invariant
            pos <= v.len(),
            views(out@) + words_of(v@.skip(pos as int)) == words_of(v@),
        decreases v.len() - pos,
    {
        let ghost rest = v@.skip(pos as int);
        if is_whitespace(v[pos]) {
            assert(rest.drop_first() =~= v@.skip(pos + 1));
            pos += 1;
        } else {
            let mut j = pos;
            while j < v.len() && !is_whitespace(v[j])
                invariant
                    pos <= j <= v.len(),
                    forall|k: int| pos <= k < j ==> !is_ws(#[trigger] v@[k]),
                decreases v.len() - j,
            {
                j += 1;
            }
            proof {
                assert forall|i: int| 0 <= i < j - pos implies !is_ws(#[trigger] rest[i]) by {
                    assert(rest[i] == v@[i + pos]);
                }
                lemma_ws_index_is(rest, j - pos);
            }
            let w = subvec(v, pos, j);
            let ghost old_out = views(out@);
            out.push(w);
            assert(w@ =~= rest.take(j - pos));
            assert(rest.skip(j - pos) =~= v@.skip(j as int));
            assert(views(out@) =~= old_out.push(w@));
            assert(views(out@) + words_of(v@.skip(j as int)) =~= old_out + words_of(rest));
            pos = j;
        }
    }
    assert(v@.skip(pos as int) =~= Seq::<char>::empty());
    assert(views(out@) + words_of(v@.skip(pos as int)) =~= views(out@));
    out
}

/// The first word of `v`, if any: `split_whitespace().next()`.
pub fn first_word(v: &Vec<char>) -> (r: Option<Vec<char>>)
    ensures
        r matches Some(w) ==> words_of(v@).len() > 0 && w@ == words_of(v@)[0],
        r is None ==> words_of(v@).len() == 0,
{
    let ws = split_whitespace(v);
    if ws.len() > 0 {
        let w = subvec(&ws[0], 0, ws[0].len());
        assert(w@ =~= ws@[0]@);
        assert(views(ws@)[0] == ws@[0]@);
        Some(w)
    } else {
        None
    }
}

// ───────────────────────────── prefixes and substrings ─────────────────────────────

/// Whether `s` begins with `p`.
pub open spec fn has_prefix(s: Seq<char>, p: Seq<char>) -> bool {
    p.len() <= s.len() && s.take(p.len() as int) == p
}

/// Whether `s` ends with `p`.
pub open spec fn has_suffix(s: Seq<char>, p: Seq<char>) -> bool {
    p.len() <= s.len() && s.skip(s.len() - p.len()) == p
}

/// Whether `p` occurs in `s` at index `i`.
pub open spec fn occurs_at(s: Seq<char>, p: Seq<char>, i: int) -> bool {
    0 <= i && i + p.len() <= s.len() && s.subrange(i, i + p.len()) == p
}

/// Whether `p` occurs anywhere in `s`.
pub open spec fn has_infix(s: Seq<char>, p: Seq<char>) -> bool {
    exists|i: int| occurs_at(s, p, i)
}

fn matches_at(v: &Vec<char>, p: &Vec<char>, i: usize) -> (r: bool)
    requires
        i <= v.len(),
    ensures
        r == occurs_at(v@, p@, i as int),
{
    if p.len() > v.len() - i {
        return false;
    }
    let mut k: usize = 0;
    while k < p.len()
        invariant
            i + p.len() <= v.len(),
            k <= p.len(),
            forall|m: int| 0 <= m < k ==> v@[i + m] == p@[m],
        decreases p.len() - k,
    {
        if v[i + k] != p[k] {
            assert(v@.subrange(i as int, i + p.len())[k as int] != p@[k as int]);
            return false;
        }
        k += 1;
    }
    assert(v@.subrange(i as int, i + p.len()) =~= p@);
    true
}

/// Whether `v` begins with the characters of `p`.
pub fn starts_with(v: &Vec<char>, p: &str) -> (r: bool)
    ensures
        r == has_prefix(v@, p@),
{
    let pv = chars_of(p);
    let r = matches_at(v, &pv, 0);
    assert(pv@.len() <= v@.len() ==> v@.subrange(0, pv@.len() as int) =~= v@.take(
        pv@.len() as int,
    ));
    r
}

/// Whether `v` ends with the characters of `p`.
pub fn ends_with(v: &Vec<char>, p: &str) -> (r: bool)
    ensures
        r == has_suffix(v@, p@),
{
    let pv = chars_of(p);
    if pv.len() > v.len() {
        return false;
    }
    let i = v.len() - pv.len();
    let r = matches_at(v, &pv, i);
    assert(v@.subrange(i as int, i + pv@.len()) =~= v@.skip(i as int));
    r
}

/// Whether the characters of `p` occur in `v`.
pub fn contains(v: &Vec<char>, p: &str) -> (r: bool)
    ensures
        r == has_infix(v@, p@),
{
    let pv = chars_of(p);
    let mut i: usize = 0;
    while i < v.len()
        invariant
            i <= v.len(),
            pv@ == p@,
            forall|m: int| 0 <= m < i ==> !occurs_at(v@, pv@, m),
        decreases v.len() - i,
    {
        if matches_at(v, &pv, i) {
            assert(occurs_at(v@, p@, i as int));
            return true;
        }
        i += 1;
    }
    if matches_at(v, &pv, i) {
        assert(occurs_at(v@, p@, i as int));
        return true;
    }
    assert forall|m: int| !occurs_at(v@, p@, m) by {
        if 0 <= m <= i {
        }
    }
    false
}

/// Whether `v` holds the character `c`.
pub fn contains_char(v: &Vec<char>, c: char) -> (r: bool)
    ensures
        r == v@.contains(c),
{
    let j = find_char_from(v, c, 0);
    proof {
        assert(v@.skip(0) =~= v@);
        lemma_index_of(v@, c);
    }
    if j < v.len() {
        assert(v@[j as int] == c);
        true
    } else {
        false
    }
}


// ───────────────────────────── more slicing ─────────────────────────────

/// `s` without the leading characters equal to `c`.
pub open spec fn strip_leading(s: Seq<char>, c: char) -> Seq<char>
    decreases s.len(),
{
    if s.len() > 0 && s[0] == c {
        strip_leading(s.drop_first(), c)
    } else {
        s
    }
}

/// `s` without the trailing characters equal to `c`.
pub open spec fn strip_trailing(s: Seq<char>, c: char) -> Seq<char>
    decreases s.len(),
{
    if s.len() > 0 && s.last() == c {
        strip_trailing(s.drop_last(), c)
    } else {
        s
    }
}

/// `s` without leading and trailing `c`, as `str::trim_matches(c)` gives it.
pub open spec fn strip_both(s: Seq<char>, c: char) -> Seq<char> {
    strip_trailing(strip_leading(s, c), c)
}

proof fn lemma_strip_leading_skip(s: Seq<char>, c: char, k: int)
    requires
        0 <= k <= s.len(),
        forall|i: int| 0 <= i < k ==> #[trigger] s[i] == c,
        k == s.len() || s[k] != c,
    ensures
        strip_leading(s, c) == s.skip(k),
    decreases k,
{
    if k == 0 {
        assert(s.skip(0) =~= s);
    } else {
        let t = s.drop_first();
        assert forall|i: int| 0 <= i < k - 1 implies #[trigger] t[i] == c by {
            assert(t[i] == s[i + 1]);
        }
        lemma_strip_leading_skip(t, c, k - 1);
        assert(t.skip(k - 1) =~= s.skip(k));
    }
}

proof fn lemma_strip_trailing_take(s: Seq<char>, c: char, k: int)
    requires
        0 <= k <= s.len(),
        forall|i: int| k <= i < s.len() ==> #[trigger] s[i] == c,
        k == 0 || s[k - 1] != c,
    ensures
        strip_trailing(s, c) == s.take(k),
    decreases s.len() - k,
{
    if k == s.len() {
        assert(s.take(k) =~= s);
    } else {
        let t = s.drop_last();
        lemma_strip_trailing_take(t, c, k);
        assert(t.take(k) =~= s.take(k));
    }
}

/// `v` without leading and trailing `c`.
pub fn trim_matches(v: &Vec<char>, c: char) -> (r: Vec<char>)
    ensures
        r@ == strip_both(v@, c),
{
    let mut a: usize = 0;
    while a < v.len() && v[a] == c
        invariant
            a <= v.len(),
            forall|i: int| 0 <= i < a ==> #[trigger] v@[i] == c,
        decreases v.len() - a,
    {
        a += 1;
    }
    let mut b: usize = v.len();
    while b > a && v[b - 1] == c
        invariant
            a <= b <= v.len(),
            forall|i: int| b <= i < v.len() ==> #[trigger] v@[i] == c,
        decreases b - a,
    {
        b -= 1;
    }
    proof {
        lemma_strip_leading_skip(v@, c, a as int);
        let t = v@.skip(a as int);
        assert forall|i: int| (b - a) <= i < t.len() implies #[trigger] t[i] == c by {
            assert(t[i] == v@[i + a]);
        }
        lemma_strip_trailing_take(t, c, b - a);
        assert(t.take(b - a) =~= v@.subrange(a as int, b as int));
    }
    subvec(v, a, b)
}

/// `v` without the trailing characters equal to `c`, as `trim_end_matches(c)`.
pub fn trim_end_char(v: &Vec<char>, c: char) -> (r: Vec<char>)
    ensures
        r@ == strip_trailing(v@, c),
{
    let mut b: usize = v.len();
    while b > 0 && v[b - 1] == c
        invariant
            b <= v.len(),
            forall|i: int| b <= i < v.len() ==> #[trigger] v@[i] == c,
        decreases b,
    {
        b -= 1;
    }
    proof {
        lemma_strip_trailing_take(v@, c, b as int);
    }
    subvec(v, 0, b)
}

/// The characters of `a` followed by those of `b`.
pub fn concat(a: &Vec<char>, b: &Vec<char>) -> (r: Vec<char>)
    ensures
        r@ == a@ + b@,
{
    let mut r = subvec(a, 0, a.len());
    let mut c = subvec(b, 0, b.len());
    assert(a@.subrange(0, a@.len() as int) =~= a@);
    assert(b@.subrange(0, b@.len() as int) =~= b@);
    r.append(&mut c);
    r
}

/// The characters of `a`, then of the literal `lit`, then of `b`.
pub fn join3(a: &Vec<char>, lit: &str, b: &Vec<char>) -> (r: Vec<char>)
    ensures
        r@ == a@ + lit@ + b@,
{
    let m = chars_of(lit);
    let ab = concat(a, &m);
    concat(&ab, b)
}

/// The index just past the last `c` in `s`, or 0 if there is none.
pub open spec fn after_last(s: Seq<char>, c: char) -> nat
    decreases s.len(),
{
    if s.len() == 0 {
        0
    } else if s.last() == c {
        s.len()
    } else {
        after_last(s.drop_last(), c)
    }
}

/// `after_last` is at most the length.
pub proof fn lemma_after_last_bound(s: Seq<char>, c: char)
    ensures
        after_last(s, c) <= s.len(),
        after_last(s, c) > 0 ==> s[after_last(s, c) - 1] == c,
    decreases s.len(),
{
    if s.len() > 0 && s.last() != c {
        lemma_after_last_bound(s.drop_last(), c);
    }
}

proof fn lemma_after_last_is(s: Seq<char>, c: char, k: int)
    requires
        0 <= k <= s.len(),
        forall|i: int| k <= i < s.len() ==> #[trigger] s[i] != c,
        k == 0 || s[k - 1] == c,
    ensures
        after_last(s, c) == k,
    decreases s.len(),
{
    if s.len() > 0 && s.len() != k {
        lemma_after_last_is(s.drop_last(), c, k);
    }
}

/// The part of `v` after its last `c` (all of `v` if there is none), as
/// `rsplit(c).next()` gives it.
pub fn after_last_char(v: &Vec<char>, c: char) -> (r: Vec<char>)
    ensures
        r@ == v@.skip(after_last(v@, c) as int),
        after_last(v@, c) <= v@.len(),
{
    let mut k: usize = v.len();
    while k > 0 && v[k - 1] != c
        invariant
            k <= v.len(),
            forall|i: int| k <= i < v.len() ==> #[trigger] v@[i] != c,
        decreases k,
    {
        k -= 1;
    }
    proof {
        lemma_after_last_is(v@, c, k as int);
    }
    subvec(v, k, v.len())
}

/// Whether `c` is an ASCII decimal digit.
pub open spec fn is_ascii_digit(c: char) -> bool {
    '0' <= c <= '9'
}

/// Whether every character of `s` is an ASCII decimal digit (true when empty).
pub open spec fn all_ascii_digits(s: Seq<char>) -> bool {
    forall|i: int| 0 <= i < s.len() ==> is_ascii_digit(#[trigger] s[i])
}

/// Whether every character of `v` from `lo` on is an ASCII decimal digit.
pub fn ascii_digits_from(v: &Vec<char>, lo: usize) -> (r: bool)
    requires
        lo <= v.len(),
    ensures
        r == all_ascii_digits(v@.skip(lo as int)),
{
    let mut i = lo;
    while i < v.len()
        invariant
            lo <= i <= v.len(),
            forall|k: int| lo <= k < i ==> is_ascii_digit(#[trigger] v@[k]),
        decreases v.len() - i,
    {
        if !('0' <= v[i] && v[i] <= '9') {
            assert(v@.skip(lo as int)[i - lo] == v@[i as int]);
            return false;
        }
        i += 1;
    }
    assert forall|k: int| 0 <= k < v@.skip(lo as int).len() implies is_ascii_digit(
        #[trigger] v@.skip(lo as int)[k],
    ) by {
        assert(v@.skip(lo as int)[k] == v@[k + lo]);
    }
    true
}

/// `s` without its trailing ASCII digits.
pub open spec fn strip_trailing_digits(s: Seq<char>) -> Seq<char>
    decreases s.len(),
{
    if s.len() > 0 && is_ascii_digit(s.last()) {
        strip_trailing_digits(s.drop_last())
    } else {
        s
    }
}

proof fn lemma_strip_trailing_digits_take(s: Seq<char>, k: int)
    requires
        0 <= k <= s.len(),
        forall|i: int| k <= i < s.len() ==> is_ascii_digit(#[trigger] s[i]),
        k == 0 || !is_ascii_digit(s[k - 1]),
    ensures
        strip_trailing_digits(s) == s.take(k),
    decreases s.len() - k,
{
    if k == s.len() {
        assert(s.take(k) =~= s);
    } else {
        let t = s.drop_last();
        lemma_strip_trailing_digits_take(t, k);
        assert(t.take(k) =~= s.take(k));
    }
}

/// `v` without its trailing ASCII digits.
pub fn trim_end_digits(v: &Vec<char>) -> (r: Vec<char>)
    ensures
        r@ == strip_trailing_digits(v@),
{
    let mut b: usize = v.len();
    while b > 0 && '0' <= v[b - 1] && v[b - 1] <= '9'
        invariant
            b <= v.len(),
            forall|i: int| b <= i < v.len() ==> is_ascii_digit(#[trigger] v@[i]),
        decreases b,
    {
        b -= 1;
    }
    proof {
        lemma_strip_trailing_digits_take(v@, b as int);
    }
    subvec(v, 0, b)
}

/// The strings of a list of character vectors.
pub fn strings_of(v: &Vec<Vec<char>>) -> (r: Vec<String>)
    ensures
        r@.len() == v@.len(),
        forall|i: int| 0 <= i < v@.len() ==> #[trigger] r@[i]@ == v@[i]@,
{
    let mut r: Vec<String> = Vec::new();
    let mut i: usize = 0;
    while i < v.len()
        invariant
            i <= v.len(),
            r@.len() == i,
            forall|k: int| 0 <= k < i ==> #[trigger] r@[k]@ == v@[k]@,
        decreases v.len() - i,
    {
        r.push(string_from_chars(&v[i]));
        i += 1;
    }
    r
}


// ───────────────────────────── splitting at a pattern ─────────────────────────────

/// The first index at or after `i` where `p` occurs in `s`.
pub open spec fn find_from(s: Seq<char>, p: Seq<char>, i: int) -> Option<int>
    decreases s.len() + 1 - i,
{
    if i < 0 || i + p.len() > s.len() {
        None
    } else if occurs_at(s, p, i) {
        Some(i)
    } else {
        find_from(s, p, i + 1)
    }
}

/// The two parts of `s` around the first occurrence of `p`, as
/// `str::split_once(p)` gives them.
pub open spec fn split_once_str_at(s: Seq<char>, p: Seq<char>) -> Option<(Seq<char>, Seq<char>)> {
    match find_from(s, p, 0) {
        Some(i) => Some((s.take(i), s.skip(i + p.len()))),
        None => None,
    }
}

/// The two parts of `v` around the first occurrence of the characters of `pat`.
pub fn split_once_str(v: &Vec<char>, pat: &str) -> (r: Option<(Vec<char>, Vec<char>)>)
    ensures
        r matches Some((a, b)) ==> split_once_str_at(v@, pat@) == Some((a@, b@)),
        r is None ==> split_once_str_at(v@, pat@) is None,
{
    let p = chars_of(pat);
    if p.len() == 0 {
        assert(occurs_at(v@, p@, 0)) by {
            assert(v@.subrange(0, 0) =~= p@);
        }
        let b = subvec(v, 0, v.len());
        assert(b@ =~= v@.skip(0));
        return Some((Vec::new(), b));
    }
    if p.len() > v.len() {
        return None;
    }
    let mut i: usize = 0;
    while i <= v.len() - p.len()
        invariant
            p@.len() > 0,
            p@.len() <= v@.len(),
            i <= v.len() - p.len() + 1,
            i <= v.len(),
            p@ == pat@,
            find_from(v@, p@, i as int) == find_from(v@, p@, 0),
        decreases v.len() - i,
    {
        if matches_at(v, &p, i) {
            let a = subvec(v, 0, i);
            let b = subvec(v, i + p.len(), v.len());
            assert(a@ =~= v@.take(i as int));
            assert(b@ =~= v@.skip(i + p@.len()));
            return Some((a, b));
        }
        i += 1;
    }
    None
}

/// `s` without every trailing occurrence of `p` (a non-empty pattern), as
/// `str::trim_end_matches(p)` gives it.
pub open spec fn strip_trailing_str(s: Seq<char>, p: Seq<char>) -> Seq<char>
    decreases s.len(),
{
    if p.len() > 0 && has_suffix(s, p) {
        strip_trailing_str(s.take(s.len() - p.len()), p)
    } else {
        s
    }
}

/// `v` without every trailing occurrence of the characters of `pat`.
pub fn trim_end_str(v: &Vec<char>, pat: &str) -> (r: Vec<char>)
    ensures
        r@ == strip_trailing_str(v@, pat@),
{
    let p = chars_of(pat);
    let mut k: usize = v.len();
    assert(v@.take(k as int) =~= v@);
    while p.len() > 0 && k >= p.len() && matches_at(v, &p, k - p.len())
        invariant
            k <= v.len(),
            p@ == pat@,
            strip_trailing_str(v@.take(k as int), p@) == strip_trailing_str(v@, p@),
        decreases k,
    {
        let ghost t = v@.take(k as int);
        assert(t.skip(t.len() - p@.len()) =~= v@.subrange(k - p@.len(), k as int));
        assert(t.take(t.len() - p@.len()) =~= v@.take(k - p@.len()));
        k -= p.len();
    }
    proof {
        let t = v@.take(k as int);
        if p@.len() > 0 && has_suffix(t, p@) {
            assert(t.skip(t.len() - p@.len()) =~= v@.subrange(k - p@.len(), k as int));
        }
    }
    subvec(v, 0, k)
}
} // verus!
