//! Character-sequence utilities shared by the path, name and walker modules:
//! lexicographic comparison, substring search, decimal rendering and
//! name sanitisation.

use vstd::prelude::*;
use vstd::string::*;

verus! {

/// Lexicographic "less or equal" on character sequences, by code point.
pub open spec fn lex_leq(a: Seq<char>, b: Seq<char>) -> bool
    decreases a.len(),
{
    if a.len() == 0 {
        true
    } else if b.len() == 0 {
        false
    } else if (a[0] as u32) < (b[0] as u32) {
        true
    } else if (a[0] as u32) > (b[0] as u32) {
        false
    } else {
        lex_leq(a.subrange(1, a.len() as int), b.subrange(1, b.len() as int))
    }
}

/// `lex_leq` is total: any two sequences compare one way or the other.
pub proof fn lemma_lex_total(a: Seq<char>, b: Seq<char>)
    ensures
        lex_leq(a, b) || lex_leq(b, a),
    decreases a.len(),
{
    if a.len() != 0 && b.len() != 0 && (a[0] as u32) == (b[0] as u32) {
        lemma_lex_total(a.subrange(1, a.len() as int), b.subrange(1, b.len() as int));
    }
}

/// `lex_leq` is transitive.
pub proof fn lemma_lex_trans(a: Seq<char>, b: Seq<char>, c: Seq<char>)
    requires
        lex_leq(a, b),
        lex_leq(b, c),
    ensures
        lex_leq(a, c),
    decreases a.len(),
{
    if a.len() != 0 && b.len() != 0 && c.len() != 0 {
        if (a[0] as u32) == (b[0] as u32) && (b[0] as u32) == (c[0] as u32) {
            lemma_lex_trans(
                a.subrange(1, a.len() as int),
                b.subrange(1, b.len() as int),
                c.subrange(1, c.len() as int),
            );
        }
    }
}

/// Compares two strings lexicographically by code point.
pub fn lex_leq_str(a: &str, b: &str) -> (r: bool)
    ensures
        r == lex_leq(a@, b@),
{
    let alen = a.unicode_len();
    let blen = b.unicode_len();
    let mut i: usize = 0;
    proof {
        assert(a@.subrange(0, alen as int) =~= a@);
        assert(b@.subrange(0, blen as int) =~= b@);
    }
    loop
        invariant
            i <= alen,
            i <= blen,
            alen == a@.len(),
            blen == b@.len(),
            lex_leq(a@, b@) == lex_leq(
                a@.subrange(i as int, alen as int),
                b@.subrange(i as int, blen as int),
            ),
        decreases alen - i,
    {
        if i == alen {
            return true;
        }
        if i == blen {
            return false;
        }
        let ca = a.get_char(i);
        let cb = b.get_char(i);
        if (ca as u32) < (cb as u32) {
            return true;
        }
        if (ca as u32) > (cb as u32) {
            return false;
        }
        proof {
            assert(a@.subrange(i as int, alen as int).subrange(1, (alen - i) as int) =~= a@.subrange(
                i + 1,
                alen as int,
            ));
            assert(b@.subrange(i as int, blen as int).subrange(1, (blen - i) as int) =~= b@.subrange(
                i + 1,
                blen as int,
            ));
        }
        i = i + 1;
    }
}

/// `needle` occurs in `hay` starting at position `i`.
pub open spec fn matches_at(hay: Seq<char>, needle: Seq<char>, i: int) -> bool {
    0 <= i && i + needle.len() <= hay.len() && hay.subrange(i, i + needle.len() as int) == needle
}

/// `needle` occurs somewhere in `hay`.
pub open spec fn contains_sub(hay: Seq<char>, needle: Seq<char>) -> bool {
    exists|i: int| matches_at(hay, needle, i)
}

/// Substring search by code point.
pub fn contains_str(hay: &str, needle: &str) -> (r: bool)
    ensures
        r == contains_sub(hay@, needle@),
{
    let hlen = hay.unicode_len();
    let nlen = needle.unicode_len();
    if nlen > hlen {
        assert(forall|i: int| !matches_at(hay@, needle@, i));
        return false;
    }
    let mut i: usize = 0;
    while i <= hlen - nlen
        invariant
            nlen <= hlen,
            hlen == hay@.len(),
            nlen == needle@.len(),
            i <= hlen - nlen + 1,
            forall|k: int| 0 <= k < i ==> !matches_at(hay@, needle@, k),
        decreases hlen - nlen - i + 1,
    {
        let mut j: usize = 0;
        let mut same = true;
        while same && j < nlen
            invariant
                nlen <= hlen,
                i + nlen <= hlen,
                hlen == hay@.len(),
                nlen == needle@.len(),
                j <= nlen,
                same ==> forall|k: int| 0 <= k < j ==> hay@[i + k] == needle@[k],
                !same ==> j < nlen && hay@[i + j] != needle@[j as int],
            decreases nlen - j, (if same { 1int } else { 0int }),
        {
            if hay.get_char(i + j) != needle.get_char(j) {
                same = false;
            } else {
                j = j + 1;
            }
        }
        if same {
            proof {
                assert(hay@.subrange(i as int, i + nlen) =~= needle@);
                assert(matches_at(hay@, needle@, i as int));
            }
            return true;
        }
        proof {
            assert(!matches_at(hay@, needle@, i as int)) by {
                if matches_at(hay@, needle@, i as int) {
                    assert(hay@.subrange(i as int, i + nlen)[j as int] == needle@[j as int]);
                }
            }
        }
        i = i + 1;
    }
    proof {
        assert(forall|k: int| matches_at(hay@, needle@, k) ==> 0 <= k <= hlen - nlen);
    }
    false
}

/// The character for one decimal digit.
pub open spec fn digit_char(d: int) -> char {
    if d == 0 {
        '0'
    } else if d == 1 {
        '1'
    } else if d == 2 {
        '2'
    } else if d == 3 {
        '3'
    } else if d == 4 {
        '4'
    } else if d == 5 {
        '5'
    } else if d == 6 {
        '6'
    } else if d == 7 {
        '7'
    } else if d == 8 {
        '8'
    } else {
        '9'
    }
}

/// The decimal rendering of a natural number, most significant digit first.
pub open spec fn dec_of(n: nat) -> Seq<char>
    decreases n,
{
    if n < 10 {
        seq![digit_char(n as int)]
    } else {
        dec_of(n / 10) + seq![digit_char((n % 10) as int)]
    }
}

/// Appends the decimal rendering of `n` to `out`.
pub fn append_decimal(out: &mut String, n: u64)
    ensures
        final(out)@ == old(out)@ + dec_of(n as nat),
    decreases n,
{
    if n >= 10 {
        append_decimal(out, n / 10);
    }
    let d = n % 10;
    proof {
        reveal_strlit("0");
        reveal_strlit("1");
        reveal_strlit("2");
        reveal_strlit("3");
        reveal_strlit("4");
        reveal_strlit("5");
        reveal_strlit("6");
        reveal_strlit("7");
        reveal_strlit("8");
        reveal_strlit("9");
    }
    let digit: &str = if d == 0 {
        "0"
    } else if d == 1 {
        "1"
    } else if d == 2 {
        "2"
    } else if d == 3 {
        "3"
    } else if d == 4 {
        "4"
    } else if d == 5 {
        "5"
    } else if d == 6 {
        "6"
    } else if d == 7 {
        "7"
    } else if d == 8 {
        "8"
    } else {
        "9"
    };
    assert(digit@ =~= seq![digit_char(d as int)]);
    out.append(digit);
    proof {
        if n < 10 {
            assert(old(out)@ + dec_of(n as nat) =~= out@);
        } else {
            assert(old(out)@ + dec_of(n as nat) =~= out@);
        }
    }
}

/// The decimal rendering of `n` as a fresh string.
pub fn decimal_string(n: u64) -> (r: String)
    ensures
        r@ == dec_of(n as nat),
{
    let mut out = String::new();
    append_decimal(&mut out, n);
    proof {
        assert(out@ =~= dec_of(n as nat));
    }
    out
}

/// Separator and control characters are not allowed inside a single name.
pub open spec fn sanitize_char(c: char) -> char {
    if c == '/' || c == '\\' || c == '\u{0}' {
        '_'
    } else {
        c
    }
}

/// A name with every separator or NUL replaced by an underscore.
pub open spec fn sanitize_spec(s: Seq<char>) -> Seq<char> {
    Seq::new(s.len(), |i: int| sanitize_char(s[i]))
}

/// Replaces `/`, `\` and NUL in `s` by `_`, keeping everything else.
pub fn sanitize_name(s: &str) -> (r: String)
    ensures
        r@ == sanitize_spec(s@),
{
    let len = s.unicode_len();
    let mut out = String::new();
    let mut i: usize = 0;
    while i < len
        invariant
            i <= len,
            len == s@.len(),
            out@ =~= sanitize_spec(s@.subrange(0, i as int)),
        decreases len - i,
    {
        let c = s.get_char(i);
        if c == '/' || c == '\\' || c == '\u{0}' {
            proof {
                reveal_strlit("_");
            }
            out.append("_");
        } else {
            let piece = s.substring_char(i, i + 1);
            out.append(piece);
        }
        proof {
            assert(out@ =~= sanitize_spec(s@.subrange(0, i + 1)));
        }
        i = i + 1;
    }
    proof {
        assert(s@.subrange(0, len as int) =~= s@);
    }
    out
}

/// `a`, a slash, then `b`.
pub open spec fn slash_join(a: Seq<char>, b: Seq<char>) -> Seq<char> {
    a + seq!['/'] + b
}

/// The event path for an operation under an optional directory prefix:
/// `prefix/name` when a prefix was supplied, `name` alone otherwise.
pub fn prefix_join(prefix: Option<&String>, name: &str) -> (r: String)
    ensures
        match prefix {
            Some(p) => r@ == slash_join(p@, name@),
            None => r@ == name@,
        },
{
    proof {
        reveal_strlit("/");
    }
    match prefix {
        Some(p) => {
            let mut out = p.clone();
            out.append("/");
            out.append(name);
            proof {
                assert(out@ =~= slash_join(p@, name@));
            }
            out
        },
        None => {
            let mut out = String::new();
            out.append(name);
            proof {
                assert(out@ =~= name@);
            }
            out
        },
    }
}

/// The views of a sequence of strings.
pub open spec fn views_of(s: Seq<String>) -> Seq<Seq<char>> {
    Seq::new(s.len(), |i: int| s[i]@)
}

/// Appending a string appends its view.
pub proof fn lemma_views_push(s: Seq<String>, x: String)
    ensures
        views_of(s.push(x)) =~= views_of(s).push(x@),
{
}

/// Segments joined with `/` and no leading or trailing separator.
pub open spec fn join_spec(s: Seq<Seq<char>>) -> Seq<char>
    decreases s.len(),
{
    if s.len() == 0 {
        Seq::empty()
    } else if s.len() == 1 {
        s[0]
    } else {
        slash_join(join_spec(s.drop_last()), s.last())
    }
}

/// Joins path segments with `/`.
pub fn join_segments(v: &Vec<String>) -> (r: String)
    ensures
        r@ == join_spec(views_of(v@)),
{
    proof {
        reveal_strlit("/");
    }
    let mut out = String::new();
    let mut i: usize = 0;
    while i < v.len()
        invariant
            i <= v.len(),
            out@ =~= join_spec(views_of(v@).subrange(0, i as int)),
        decreases v.len() - i,
    {
        proof {
            reveal_strlit("/");
        }
        if i > 0 {
            out.append("/");
        }
        out.append(v[i].as_str());
        proof {
            let pre = views_of(v@).subrange(0, i as int);
            let now = views_of(v@).subrange(0, i + 1);
            assert(now.drop_last() =~= pre);
            assert(now.last() == v@[i as int]@);
            assert(out@ =~= join_spec(now));
        }
        i = i + 1;
    }
    proof {
        assert(views_of(v@).subrange(0, v@.len() as int) =~= views_of(v@));
    }
    out
}

/// The index of the last `.` in `s`, or `-1` when there is none.
pub open spec fn last_dot(s: Seq<char>) -> int
    decreases s.len(),
{
    if s.len() == 0 {
        -1
    } else if s.last() == '.' {
        s.len() - 1
    } else {
        last_dot(s.drop_last())
    }
}

/// What `last_dot` finds: a dot with no later dot, within bounds.
pub proof fn lemma_last_dot(s: Seq<char>)
    ensures
        -1 <= last_dot(s) < s.len(),
        last_dot(s) >= 0 ==> s[last_dot(s)] == '.',
        forall|j: int| last_dot(s) < j < s.len() ==> s[j] != '.',
    decreases s.len(),
{
    if s.len() > 0 && s.last() != '.' {
        lemma_last_dot(s.drop_last());
        assert(forall|j: int| 0 <= j < s.len() - 1 ==> s.drop_last()[j] == s[j]);
    }
}

/// A dot with no dot after it is the last one.
pub proof fn lemma_last_dot_at(s: Seq<char>, k: int)
    requires
        0 <= k < s.len(),
        s[k] == '.',
        forall|j: int| k < j < s.len() ==> s[j] != '.',
    ensures
        last_dot(s) == k,
    decreases s.len(),
{
    if s.len() - 1 != k {
        assert(forall|j: int| 0 <= j < s.len() - 1 ==> s.drop_last()[j] == s[j]);
        lemma_last_dot_at(s.drop_last(), k);
    }
}

/// A name has an extension when a `.` occurs past its first character;
/// the part after the last such dot.
pub open spec fn ext_of(s: Seq<char>) -> Option<Seq<char>> {
    if last_dot(s) > 0 {
        Some(s.subrange(last_dot(s) + 1, s.len() as int))
    } else {
        None
    }
}

/// The part of a name before its extension, or all of it when there is none.
pub open spec fn stem_of(s: Seq<char>) -> Seq<char> {
    if last_dot(s) > 0 {
        s.subrange(0, last_dot(s))
    } else {
        s
    }
}

/// Splits a file name into stem and extension at the last dot; a leading
/// dot alone marks no extension.
pub fn split_stem_ext(name: &str) -> (r: (String, Option<String>))
    ensures
        r.0@ == stem_of(name@),
        r.1 is Some <==> last_dot(name@) > 0,
        r.1 matches Some(e) ==> e@ == ext_of(name@).unwrap(),
{
    let len = name.unicode_len();
    let mut i: usize = len;
    while i > 1
        invariant
            i <= len,
            len == name@.len(),
            forall|j: int| i <= j < len ==> name@[j] != '.',
        decreases i,
    {
        if name.get_char(i - 1) == '.' {
            proof {
                lemma_last_dot_at(name@, i - 1);
            }
            let stem = name.substring_char(0, i - 1);
            let ext = name.substring_char(i, len);
            return (String::from_str(stem), Some(String::from_str(ext)));
        }
        i = i - 1;
    }
    proof {
        lemma_last_dot(name@);
        assert(last_dot(name@) <= 0);
    }
    (String::from_str(name), None)
}

} // verus!
