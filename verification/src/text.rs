//! Plain-text helpers: character extraction and the lexicographic order on
//! strings that device sorting falls back to.

use vstd::prelude::*;

verus! {

/// The characters of `s` as a vector.
pub fn str_chars(s: &str) -> (r: Vec<char>)
    ensures
        r@ == s@,
{
    let n = s.unicode_len();
    let mut r: Vec<char> = Vec::new();
    let mut i: usize = 0;
    while i < n
        invariant
            i <= n,
            n == s@.len(),
            r@ == s@.subrange(0, i as int),
        decreases n - i,
    {
        r.push(s.get_char(i));
        i = i + 1;
        proof {
            assert(r@ =~= s@.subrange(0, i as int));
        }
    }
    proof {
        assert(r@ =~= s@);
    }
    r
}

/// The pieces of `s` between occurrences of `sep`, in order: every separator
/// ends a piece, so `n` separators give `n + 1` pieces.
pub open spec fn split_char(s: Seq<char>, sep: char) -> Seq<Seq<char>>
    decreases s.len(),
{
    if s.len() == 0 {
        seq![Seq::<char>::empty()]
    } else if s.last() == sep {
        split_char(s.drop_last(), sep).push(Seq::<char>::empty())
    } else {
        let parts = split_char(s.drop_last(), sep);
        parts.update(parts.len() - 1, parts.last().push(s.last()))
    }
}

/// Splits a string at every occurrence of a separator character.
#[verifier::loop_isolation(false)]
pub fn split_at_char(s: &str, sep: char) -> (r: Vec<String>)
    ensures
        r@.map_values(|x: String| x@) == split_char(s@, sep),
{
    let n = s.unicode_len();
    let mut r: Vec<String> = Vec::new();
    let mut start: usize = 0;
    let mut i: usize = 0;
    proof {
        assert(s@.subrange(0, 0) =~= Seq::<char>::empty());
        assert(r@.map_values(|x: String| x@).push(s@.subrange(0, 0)) =~~= split_char(
            s@.subrange(0, 0),
            sep,
        ));
    }
    while i < n
        invariant
            start <= i <= n,
            n == s@.len(),
            r@.map_values(|x: String| x@).push(s@.subrange(start as int, i as int)) == split_char(
                s@.subrange(0, i as int),
                sep,
            ),
        decreases n - i,
    {
        let ghost r0 = r@.map_values(|x: String| x@);
        let ghost start0 = start as int;
        let c = s.get_char(i);
        if c == sep {
            let piece = s.substring_char(start, i);
            r.push(String::from_str(piece));
            start = i + 1;
        }
        i = i + 1;
        proof {
            let pre = s@.subrange(0, i - 1);
            let pre2 = s@.subrange(0, i as int);
            assert(pre2.drop_last() =~= pre);
            assert(pre2.last() == s@[i - 1]);
            if c == sep {
                assert(r@.map_values(|x: String| x@) =~~= r0.push(pre.subrange(start0, i - 1)));
                assert(pre.subrange(start0, i - 1) =~= s@.subrange(start0, i - 1));
                assert(s@.subrange(start as int, i as int) =~= Seq::<char>::empty());
                assert(r@.map_values(|x: String| x@).push(s@.subrange(start as int, i as int))
                    =~~= split_char(pre2, sep));
            } else {
                assert(s@.subrange(start as int, i as int) =~= s@.subrange(start0, i - 1).push(
                    s@[i - 1],
                ));
                assert(r@.map_values(|x: String| x@).push(s@.subrange(start as int, i as int))
                    =~~= split_char(pre2, sep));
            }
        }
    }
    let piece = s.substring_char(start, n);
    r.push(String::from_str(piece));
    proof {
        assert(s@.subrange(0, n as int) =~= s@);
        assert(r@.map_values(|x: String| x@) =~~= split_char(s@, sep));
    }
    r
}

/// The nonempty pieces, in order.
pub open spec fn nonempty_pieces(parts: Seq<Seq<char>>) -> Seq<Seq<char>>
    decreases parts.len(),
{
    if parts.len() == 0 {
        Seq::<Seq<char>>::empty()
    } else {
        let p = nonempty_pieces(parts.drop_last());
        if parts.last().len() > 0 {
            p.push(parts.last())
        } else {
            p
        }
    }
}

/// The whitespace-separated words of `s`: split at spaces, empty pieces
/// dropped. Tabs and carriage returns count as spaces.
pub open spec fn spec_tokens(s: Seq<char>) -> Seq<Seq<char>> {
    nonempty_pieces(split_char(norm_spaces(s), ' '))
}

/// `s` with every tab and carriage return read as a space.
pub open spec fn norm_spaces(s: Seq<char>) -> Seq<char> {
    s.map_values(|c: char| if c == '\t' || c == '\r' { ' ' } else { c })
}

/// Splits a string into its whitespace-separated words.
#[verifier::loop_isolation(false)]
pub fn split_tokens(s: &str) -> (r: Vec<String>)
    ensures
        r@.map_values(|x: String| x@) == spec_tokens(s@),
{
    let cs = str_chars(s);
    let n = cs.len();
    let mut normed = String::new();
    let mut i: usize = 0;
    proof {
        assert(normed@ =~= norm_spaces(s@.subrange(0, 0)));
    }
    while i < n
        invariant
            i <= n,
            n == s@.len(),
            cs@ == s@,
            normed@ == norm_spaces(s@.subrange(0, i as int)),
        decreases n - i,
    {
        let c = cs[i];
        if c == '\t' || c == '\r' || c == ' ' {
            normed.append(" ");
        } else {
            let piece = s.substring_char(i, i + 1);
            normed.append(piece);
        }
        i = i + 1;
        proof {
            reveal_strlit(" ");
            assert(s@.subrange(0, i as int) =~= s@.subrange(0, i - 1).push(s@[i - 1]));
            assert(normed@ =~= norm_spaces(s@.subrange(0, i as int)));
        }
    }
    proof {
        assert(s@.subrange(0, n as int) =~= s@);
    }
    let parts = split_at_char(normed.as_str(), ' ');
    let m = parts.len();
    let mut r: Vec<String> = Vec::new();
    let mut t: usize = 0;
    proof {
        assert(parts@.subrange(0, 0) =~= Seq::<String>::empty());
        assert(r@.map_values(|x: String| x@) =~~= nonempty_pieces(
            parts@.subrange(0, 0).map_values(|x: String| x@),
        ));
    }
    while t < m
        invariant
            t <= m,
            m == parts@.len(),
            parts@.map_values(|x: String| x@) == split_char(norm_spaces(s@), ' '),
            r@.map_values(|x: String| x@) == nonempty_pieces(
                parts@.subrange(0, t as int).map_values(|x: String| x@),
            ),
        decreases m - t,
    {
        if parts[t].as_str().unicode_len() > 0 {
            r.push(parts[t].clone());
        }
        t = t + 1;
        proof {
            let mp = parts@.subrange(0, t as int).map_values(|x: String| x@);
            assert(mp.drop_last() =~~= parts@.subrange(0, t - 1).map_values(|x: String| x@));
            assert(mp.last() == parts@[t - 1]@);
            assert(r@.map_values(|x: String| x@) =~~= nonempty_pieces(mp));
        }
    }
    proof {
        assert(parts@.subrange(0, m as int) =~= parts@);
        assert(parts@.subrange(0, m as int).map_values(|x: String| x@) =~~= split_char(
            norm_spaces(s@),
            ' ',
        ));
    }
    r
}

/// Whether `p` is a prefix of `s`.
pub open spec fn starts_with(s: Seq<char>, p: Seq<char>) -> bool {
    p.len() <= s.len() && s.subrange(0, p.len() as int) == p
}

/// Whether `pat` occurs in `s` as a contiguous substring.
pub open spec fn has_substr(s: Seq<char>, pat: Seq<char>) -> bool {
    exists|off: int|
        0 <= off && off + pat.len() <= s.len() && #[trigger] s.subrange(off, off + pat.len())
            == pat
}

fn match_at(s: &str, pat: &str, off: usize) -> (r: bool)
    requires
        off + pat@.len() <= s@.len(),
    ensures
        r == (s@.subrange(off as int, off + pat@.len()) == pat@),
{
    let ns = s.unicode_len();
    let np = pat.unicode_len();
    let mut j: usize = 0;
    while j < np
        invariant
            j <= np,
            np == pat@.len(),
            ns == s@.len(),
            off + np <= ns,
            forall|q: int| 0 <= q < j ==> s@[off + q] == pat@[q],
        decreases np - j,
    {
        if s.get_char(off + j) != pat.get_char(j) {
            proof {
                assert(s@.subrange(off as int, off + pat@.len())[j as int] != pat@[j as int]);
            }
            return false;
        }
        j = j + 1;
    }
    proof {
        assert(s@.subrange(off as int, off + pat@.len()) =~= pat@);
    }
    true
}

/// Whether the string holds the pattern as a substring.
#[verifier::loop_isolation(false)]
pub fn contains_substr(s: &str, pat: &str) -> (r: bool)
    ensures
        r == has_substr(s@, pat@),
{
    let ns = s.unicode_len();
    let np = pat.unicode_len();
    if np > ns {
        return false;
    }
    let end = ns - np;
    let mut off: usize = 0;
    loop
        invariant
            np <= ns,
            ns == s@.len(),
            np == pat@.len(),
            end == ns - np,
            off <= end,
            forall|o: int| 0 <= o < off ==> #[trigger] s@.subrange(o, o + pat@.len()) != pat@,
        decreases end - off,
    {
        if match_at(s, pat, off) {
            return true;
        }
        if off == end {
            return false;
        }
        off = off + 1;
    }
}
pub fn str_eq(a: &str, b: &str) -> (r: bool)
    ensures
        r == (a@ == b@),
{
    let na = a.unicode_len();
    let nb = b.unicode_len();
    if na != nb {
        return false;
    }
    let mut i: usize = 0;
    while i < na
        invariant
            i <= na,
            na == a@.len(),
            na == b@.len(),
            forall|j: int| 0 <= j < i ==> a@[j] == b@[j],
        decreases na - i,
    {
        if a.get_char(i) != b.get_char(i) {
            return false;
        }
        i = i + 1;
    }
    proof {
        assert(a@ =~= b@);
    }
    true
}

/// Lexicographic order on character sequences, by code point; a prefix comes
/// before every extension of it.
pub open spec fn lex_le(a: Seq<char>, b: Seq<char>) -> bool
    decreases a.len(),
{
    if a.len() == 0 {
        true
    } else if b.len() == 0 {
        false
    } else if (a[0] as u32) < (b[0] as u32) {
        true
    } else if (a[0] as u32) > (b[0] as u32) {
        false
    } else {
        lex_le(a.drop_first(), b.drop_first())
    }
}

/// Every string compares at-or-before itself.
pub proof fn lemma_lex_le_refl(a: Seq<char>)
    ensures
        lex_le(a, a),
    decreases a.len(),
{
    if a.len() > 0 {
        lemma_lex_le_refl(a.drop_first());
    }
}

/// Any two strings are lexicographically comparable.
pub proof fn lemma_lex_le_total(a: Seq<char>, b: Seq<char>)
    ensures
        lex_le(a, b) || lex_le(b, a),
    decreases a.len(),
{
    if a.len() > 0 && b.len() > 0 && a[0] as u32 == b[0] as u32 {
        lemma_lex_le_total(a.drop_first(), b.drop_first());
    }
}

/// Lexicographic order is transitive.
pub proof fn lemma_lex_le_trans(a: Seq<char>, b: Seq<char>, c: Seq<char>)
    requires
        lex_le(a, b),
        lex_le(b, c),
    ensures
        lex_le(a, c),
    decreases a.len(),
{
    if a.len() > 0 && b.len() > 0 && c.len() > 0 && a[0] as u32 == b[0] as u32 && b[0] as u32
        == c[0] as u32 {
        lemma_lex_le_trans(a.drop_first(), b.drop_first(), c.drop_first());
    }
}

/// Compares two strings in lexicographic order.
pub fn str_lex_le(x: &str, y: &str) -> (r: bool)
    ensures
        r == lex_le(x@, y@),
{
    let xc = str_chars(x);
    let yc = str_chars(y);
    let xn = xc.len();
    let yn = yc.len();
    let mut i: usize = 0;
    proof {
        assert(x@.skip(0) =~= x@);
        assert(y@.skip(0) =~= y@);
    }
    loop
        invariant
            i <= xn,
            i <= yn,
            xn == x@.len(),
            yn == y@.len(),
            xc@ == x@,
            yc@ == y@,
            lex_le(x@, y@) == lex_le(x@.skip(i as int), y@.skip(i as int)),
        decreases xn - i,
    {
        if i == xn {
            proof {
                assert(x@.skip(i as int) =~= Seq::<char>::empty());
            }
            return true;
        }
        if i == yn {
            proof {
                assert(y@.skip(i as int) =~= Seq::<char>::empty());
                assert(x@.skip(i as int).len() > 0);
            }
            return false;
        }
        proof {
            assert(x@.skip(i as int)[0] == x@[i as int]);
            assert(y@.skip(i as int)[0] == y@[i as int]);
        }
        let cx = xc[i] as u32;
        let cy = yc[i] as u32;
        if cx == cy {
            proof {
                assert(x@.skip(i as int).drop_first() =~= x@.skip(i + 1));
                assert(y@.skip(i as int).drop_first() =~= y@.skip(i + 1));
            }
            i = i + 1;
        } else {
            return cx < cy;
        }
    }
}

/// The least offset at which `pat` occurs in `s`, or a negative number when
/// it does not occur.
pub open spec fn find_substr(s: Seq<char>, pat: Seq<char>) -> int
    decreases s.len(),
{
    if pat.len() == 0 {
        0
    } else if s.len() < pat.len() {
        -1
    } else if s.subrange(0, pat.len() as int) == pat {
        0
    } else {
        let r = find_substr(s.drop_first(), pat);
        if r < 0 {
            -1
        } else {
            r + 1
        }
    }
}

/// Finds the first occurrence of a pattern in a string.
#[verifier::loop_isolation(false)]
pub fn find_substr_at(s: &str, pat: &str) -> (r: Option<usize>)
    ensures
        match r {
            Some(o) => find_substr(s@, pat@) == o && o + pat@.len() <= s@.len(),
            None => find_substr(s@, pat@) < 0,
        },
{
    let ns = s.unicode_len();
    let np = pat.unicode_len();
    if np > ns {
        return None;
    }
    let end = ns - np;
    let mut off: usize = 0;
    proof {
        assert(s@.skip(0) =~= s@);
    }
    loop
        invariant
            np <= ns,
            ns == s@.len(),
            np == pat@.len(),
            end == ns - np,
            off <= end,
            find_substr(s@.skip(off as int), pat@) >= 0 ==> find_substr(s@, pat@) == off
                + find_substr(s@.skip(off as int), pat@),
            find_substr(s@.skip(off as int), pat@) < 0 ==> find_substr(s@, pat@) < 0,
        decreases end - off,
    {
        proof {
            assert(s@.skip(off as int).subrange(0, pat@.len() as int) =~= s@.subrange(
                off as int,
                off + pat@.len(),
            ));
        }
        if match_at(s, pat, off) {
            proof {
                assert(find_substr(s@.skip(off as int), pat@) == 0);
            }
            return Some(off);
        }
        proof {
            if np == 0 {
                assert(s@.subrange(off as int, off as int) =~= pat@);
            }
            assert(s@.skip(off as int).drop_first() =~= s@.skip(off + 1));
        }
        if off == end {
            proof {
                assert(s@.skip(off + 1).len() < pat@.len());
                assert(find_substr(s@.skip(off + 1), pat@) == -1);
                assert(find_substr(s@.skip(off as int), pat@) < 0);
            }
            return None;
        }
        off = off + 1;
    }
}

/// Whitespace, as trimming understands it.
pub open spec fn is_ws(c: char) -> bool {
    c == ' ' || c == '\t' || c == '\r' || c == '\n'
}

/// `s` without leading whitespace.
pub open spec fn spec_trim_start(s: Seq<char>) -> Seq<char>
    decreases s.len(),
{
    if s.len() > 0 && is_ws(s[0]) {
        spec_trim_start(s.drop_first())
    } else {
        s
    }
}

/// `s` without trailing whitespace.
pub open spec fn spec_trim_end(s: Seq<char>) -> Seq<char>
    decreases s.len(),
{
    if s.len() > 0 && is_ws(s.last()) {
        spec_trim_end(s.drop_last())
    } else {
        s
    }
}

/// `s` without trailing dots.
pub open spec fn spec_strip_dots(s: Seq<char>) -> Seq<char>
    decreases s.len(),
{
    if s.len() > 0 && s.last() == '.' {
        spec_strip_dots(s.drop_last())
    } else {
        s
    }
}

/// A lookup answer cleaned for display: surrounding whitespace trimmed, then
/// trailing dots stripped.
pub open spec fn spec_clean_hostname(s: Seq<char>) -> Seq<char> {
    spec_strip_dots(spec_trim_end(spec_trim_start(s)))
}

fn is_ws_exec(c: char) -> (r: bool)
    ensures
        r == is_ws(c),
{
    c == ' ' || c == '\t' || c == '\r' || c == '\n'
}

/// Cleans a lookup answer: trims surrounding whitespace, strips trailing
/// dots.
#[verifier::loop_isolation(false)]
pub fn clean_hostname(s: &str) -> (r: String)
    ensures
        r@ == spec_clean_hostname(s@),
{
    let n = s.unicode_len();
    let mut a: usize = 0;
    proof {
        assert(s@.subrange(0, n as int) =~= s@);
    }
    while a < n && is_ws_exec(s.get_char(a))
        invariant
            a <= n,
            n == s@.len(),
            spec_trim_start(s@) == spec_trim_start(s@.subrange(a as int, n as int)),
        decreases n - a,
    {
        proof {
            assert(s@.subrange(a as int, n as int)[0] == s@[a as int]);
            assert(s@.subrange(a as int, n as int).drop_first() =~= s@.subrange(a + 1, n as int));
        }
        a = a + 1;
    }
    proof {
        assert(spec_trim_start(s@) == s@.subrange(a as int, n as int));
    }
    let mut b: usize = n;
    while b > a && is_ws_exec(s.get_char(b - 1))
        invariant
            a <= b <= n,
            n == s@.len(),
            spec_trim_end(spec_trim_start(s@)) == spec_trim_end(s@.subrange(a as int, b as int)),
        decreases b,
    {
        proof {
            assert(s@.subrange(a as int, b as int).last() == s@[b - 1]);
            assert(s@.subrange(a as int, b as int).drop_last() =~= s@.subrange(a as int, b - 1));
        }
        b = b - 1;
    }
    proof {
        assert(spec_trim_end(spec_trim_start(s@)) == s@.subrange(a as int, b as int));
    }
    while b > a && s.get_char(b - 1) == '.'
        invariant
            a <= b <= n,
            n == s@.len(),
            spec_strip_dots(spec_trim_end(spec_trim_start(s@))) == spec_strip_dots(
                s@.subrange(a as int, b as int),
            ),
        decreases b,
    {
        proof {
            assert(s@.subrange(a as int, b as int).last() == s@[b - 1]);
            assert(s@.subrange(a as int, b as int).drop_last() =~= s@.subrange(a as int, b - 1));
        }
        b = b - 1;
    }
    proof {
        assert(spec_strip_dots(spec_trim_end(spec_trim_start(s@))) == s@.subrange(
            a as int,
            b as int,
        ));
    }
    String::from_str(s.substring_char(a, b))
}

} // verus!
