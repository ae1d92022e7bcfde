//! Byte-level text primitives: ASCII whitespace and case handling, scanning
//! for a delimiter, splitting into lines / whitespace tokens / comma-separated
//! fields, trimming, and prefix tests. Everything is specified over `Seq<u8>`.

use vstd::prelude::*;

verus! {

/// ASCII whitespace: tab, line feed, vertical tab, form feed, carriage
/// return, space.
pub open spec fn is_ws(b: u8) -> bool {
    b == '\t' as u8 || b == '\n' as u8 || b == 11 || b == 12 || b == '\r' as u8 || b == ' ' as u8
}

/// ASCII lowercasing of a single byte; bytes outside `A`..`Z` are unchanged.
pub open spec fn to_lower(b: u8) -> u8 {
    if 'A' as u8 <= b && b <= 'Z' as u8 {
        (b + 32) as u8
    } else {
        b
    }
}

/// The classes of byte a scan can stop at.
pub ghost enum ByteClass {
    LineFeed,
    Comma,
    Whitespace,
    NonWhitespace,
}

pub open spec fn in_class(b: u8, c: ByteClass) -> bool {
    match c {
        ByteClass::LineFeed => b == '\n' as u8,
        ByteClass::Comma => b == ',' as u8,
        ByteClass::Whitespace => is_ws(b),
        ByteClass::NonWhitespace => !is_ws(b),
    }
}

/// Index of the first byte of `s` in class `c`, or `-1` if there is none.
pub open spec fn find_class(s: Seq<u8>, c: ByteClass) -> int
    decreases s.len(),
{
    if s.len() == 0 {
        -1
    } else if in_class(s[0], c) {
        0
    } else {
        let r = find_class(s.drop_first(), c);
        if r < 0 {
            -1
        } else {
            r + 1
        }
    }
}

/// What `find_class` returns: either `-1` and no byte is in the class, or the
/// least index whose byte is in the class.
pub proof fn lemma_find_class(s: Seq<u8>, c: ByteClass)
    ensures
        find_class(s, c) == -1 || 0 <= find_class(s, c) < s.len(),
        find_class(s, c) >= 0 ==> in_class(s[find_class(s, c)], c),
        forall|k: int| 0 <= k < s.len() && k < find_class(s, c) ==> !in_class(s[k], c),
        find_class(s, c) == -1 ==> forall|k: int| 0 <= k < s.len() ==> !in_class(s[k], c),
    decreases s.len(),
{
    if s.len() > 0 && !in_class(s[0], c) {
        lemma_find_class(s.drop_first(), c);
        assert forall|k: int| 0 <= k < s.len() && k < find_class(s, c) implies !in_class(
            s[k],
            c,
        ) by {
            if k > 0 {
                assert(s.drop_first()[k - 1] == s[k]);
            }
        }
        if find_class(s, c) == -1 {
            assert forall|k: int| 0 <= k < s.len() implies !in_class(s[k], c) by {
                if k > 0 {
                    assert(s.drop_first()[k - 1] == s[k]);
                }
            }
        }
    }
}

/// A position that is in the class, with none before it, is exactly
/// `find_class`.
pub proof fn lemma_find_class_is(s: Seq<u8>, c: ByteClass, j: int)
    requires
        0 <= j < s.len(),
        in_class(s[j], c),
        forall|k: int| 0 <= k < j ==> !in_class(s[k], c),
    ensures
        find_class(s, c) == j,
    decreases j,
{
    if j > 0 {
        assert(!in_class(s[0], c));
        assert(s.drop_first()[j - 1] == s[j]);
        assert forall|k: int| 0 <= k < j - 1 implies !in_class(s.drop_first()[k], c) by {
            assert(s.drop_first()[k] == s[k + 1]);
        }
        lemma_find_class_is(s.drop_first(), c, j - 1);
    }
}

/// There is no byte of class `c` in `s`: `find_class` reports `-1`.
pub proof fn lemma_find_class_none(s: Seq<u8>, c: ByteClass)
    requires
        forall|k: int| 0 <= k < s.len() ==> !in_class(s[k], c),
    ensures
        find_class(s, c) == -1,
{
    lemma_find_class(s, c);
    if find_class(s, c) >= 0 {
        assert(in_class(s[find_class(s, c)], c));
    }
}

pub fn is_ws_byte(b: u8) -> (r: bool)
    ensures
        r == is_ws(b),
{
    b == '\t' as u8 || b == '\n' as u8 || b == 11 || b == 12 || b == '\r' as u8 || b == ' ' as u8
}

pub fn to_lower_byte(b: u8) -> (r: u8)
    ensures
        r == to_lower(b),
{
    if 'A' as u8 <= b && b <= 'Z' as u8 {
        b + 32
    } else {
        b
    }
}

/// A fresh copy of the byte range `[i, j)` of `v`.
pub fn subvec(v: &Vec<u8>, i: usize, j: usize) -> (r: Vec<u8>)
    requires
        i <= j <= v@.len(),
    ensures
        r@ == v@.subrange(i as int, j as int),
{
    vstd::slice::slice_to_vec(vstd::slice::slice_subrange(v.as_slice(), i, j))
}

/// Appends every byte of `src` to `dst`.
pub fn push_all(dst: &mut Vec<u8>, src: &Vec<u8>)
    ensures
        final(dst)@ == old(dst)@ + src@,
{
    let mut k: usize = 0;
    while k < src.len()
        invariant
            k <= src@.len(),
            dst@ == old(dst)@ + src@.take(k as int),
        decreases src@.len() - k,
    {
        dst.push(src[k]);
        k = k + 1;
        assert(dst@ =~= old(dst)@ + src@.take(k as int));
    }
    assert(dst@ =~= old(dst)@ + src@);
}

/// A fresh copy of `v`.
pub fn copy_bytes(v: &Vec<u8>) -> (r: Vec<u8>)
    ensures
        r@ == v@,
{
    let mut r: Vec<u8> = Vec::new();
    push_all(&mut r, v);
    assert(r@ =~= v@);
    r
}

/// Byte-for-byte equality.
pub fn bytes_eq(a: &Vec<u8>, b: &Vec<u8>) -> (r: bool)
    ensures
        r == (a@ == b@),
{
    if a.len() != b.len() {
        return false;
    }
    let mut k: usize = 0;
    while k < a.len()
        invariant
            a@.len() == b@.len(),
            k <= a@.len(),
            forall|i: int| 0 <= i < k ==> a@[i] == b@[i],
        decreases a@.len() - k,
    {
        if a[k] != b[k] {
            return false;
        }
        k = k + 1;
    }
    assert(a@ =~= b@);
    true
}

/// Does `s` start with the bytes of `p`, compared exactly?
pub open spec fn starts_with(s: Seq<u8>, p: Seq<u8>) -> bool {
    p.len() <= s.len() && s.subrange(0, p.len() as int) == p
}

pub fn starts_with_bytes(s: &Vec<u8>, p: &Vec<u8>) -> (r: bool)
    ensures
        r == starts_with(s@, p@),
{
    if p.len() > s.len() {
        return false;
    }
    let mut k: usize = 0;
    while k < p.len()
        invariant
            p@.len() <= s@.len(),
            k <= p@.len(),
            forall|i: int| 0 <= i < k ==> s@[i] == p@[i],
        decreases p@.len() - k,
    {
        if s[k] != p[k] {
            assert(s@.subrange(0, p@.len() as int)[k as int] != p@[k as int]);
            return false;
        }
        k = k + 1;
    }
    assert(s@.subrange(0, p@.len() as int) =~= p@);
    true
}

/// Does `s` start with the bytes of `p`, compared ASCII-case-insensitively?
/// `p` is expected to be lowercase already.
pub open spec fn starts_with_lower(s: Seq<u8>, p: Seq<u8>) -> bool {
    p.len() <= s.len() && forall|i: int| 0 <= i < p.len() ==> to_lower(s[i]) == p[i]
}

pub fn starts_with_lower_bytes(s: &Vec<u8>, p: &Vec<u8>) -> (r: bool)
    ensures
        r == starts_with_lower(s@, p@),
{
    if p.len() > s.len() {
        return false;
    }
    let mut k: usize = 0;
    while k < p.len()
        invariant
            p@.len() <= s@.len(),
            k <= p@.len(),
            forall|i: int| 0 <= i < k ==> to_lower(s@[i]) == p@[i],
        decreases p@.len() - k,
    {
        if to_lower_byte(s[k]) != p[k] {
            return false;
        }
        k = k + 1;
    }
    true
}

/// `s` without its leading ASCII whitespace.
pub open spec fn spec_trim_start(s: Seq<u8>) -> Seq<u8>
    decreases s.len(),
{
    if s.len() > 0 && is_ws(s[0]) {
        spec_trim_start(s.drop_first())
    } else {
        s
    }
}

/// `s` without its trailing ASCII whitespace.
pub open spec fn spec_trim_end(s: Seq<u8>) -> Seq<u8>
    decreases s.len(),
{
    if s.len() > 0 && is_ws(s.last()) {
        spec_trim_end(s.drop_last())
    } else {
        s
    }
}

/// `s` without leading and trailing ASCII whitespace.
pub open spec fn spec_trim(s: Seq<u8>) -> Seq<u8> {
    spec_trim_end(spec_trim_start(s))
}

/// Dropping `a` leading whitespace bytes, up to the first byte that is not
/// whitespace, is what `spec_trim_start` does.
pub proof fn lemma_trim_start_skip(s: Seq<u8>, a: int)
    requires
        0 <= a <= s.len(),
        forall|k: int| 0 <= k < a ==> is_ws(s[k]),
        a < s.len() ==> !is_ws(s[a]),
    ensures
        spec_trim_start(s) == s.skip(a),
    decreases a,
{
    if a == 0 {
        assert(spec_trim_start(s) =~= s.skip(0));
        if s.len() > 0 && is_ws(s[0]) {
        } else {
            assert(s =~= s.skip(0));
        }
    } else {
        assert(is_ws(s[0]));
        assert forall|k: int| 0 <= k < a - 1 implies is_ws(s.drop_first()[k]) by {
            assert(s.drop_first()[k] == s[k + 1]);
        }
        if a - 1 < s.drop_first().len() {
            assert(s.drop_first()[a - 1] == s[a]);
        }
        lemma_trim_start_skip(s.drop_first(), a - 1);
        assert(s.drop_first().skip(a - 1) =~= s.skip(a));
    }
}

/// Keeping the first `b` bytes, where everything from `b` on is whitespace
/// and the byte before `b` is not, is what `spec_trim_end` does.
pub proof fn lemma_trim_end_take(s: Seq<u8>, b: int)
    requires
        0 <= b <= s.len(),
        forall|k: int| b <= k < s.len() ==> is_ws(s[k]),
        b > 0 ==> !is_ws(s[b - 1]),
    ensures
        spec_trim_end(s) == s.take(b),
    decreases s.len() - b,
{
    if b == s.len() {
        if s.len() > 0 && is_ws(s.last()) {
        } else {
            assert(s =~= s.take(b));
        }
    } else {
        assert(is_ws(s.last()));
        assert forall|k: int| b <= k < s.drop_last().len() implies is_ws(s.drop_last()[k]) by {
            assert(s.drop_last()[k] == s[k]);
        }
        if b > 0 {
            assert(s.drop_last()[b - 1] == s[b - 1]);
        }
        lemma_trim_end_take(s.drop_last(), b);
        assert(s.drop_last().take(b) =~= s.take(b));
    }
}

/// `spec_trim`, executably: scan past leading and trailing whitespace and
/// copy what is between.
pub fn trim_bytes(v: &Vec<u8>) -> (r: Vec<u8>)
    ensures
        r@ == spec_trim(v@),
{
    let mut a: usize = 0;
    while a < v.len() && is_ws_byte(v[a])
        invariant
            a <= v@.len(),
            forall|k: int| 0 <= k < a ==> is_ws(v@[k]),
        decreases v@.len() - a,
    {
        a = a + 1;
    }
    proof {
        lemma_trim_start_skip(v@, a as int);
    }
    if a == v.len() {
        proof {
            assert(v@.skip(a as int) =~= Seq::<u8>::empty());
        }
        let r: Vec<u8> = Vec::new();
        assert(r@ =~= spec_trim(v@));
        return r;
    }
    // v[a] is not whitespace, so scanning back from the end stops at or
    // after a + 1.
    let mut b: usize = v.len();
    while b > a + 1 && is_ws_byte(v[b - 1])
        invariant
            a < b <= v@.len(),
            forall|k: int| b <= k < v@.len() ==> is_ws(v@[k]),
        decreases b,
    {
        b = b - 1;
    }
    proof {
        let t = v@.skip(a as int);
        assert(b == a + 1 || !is_ws(v@[b - 1]));
        assert(!is_ws(v@[a as int]));
        assert(!is_ws(t[b - 1 - a]));
        assert forall|k: int| b - a <= k < t.len() implies is_ws(t[k]) by {
            assert(t[k] == v@[k + a]);
        }
        lemma_trim_end_take(t, b - a);
        assert(t.take(b - a) =~= v@.subrange(a as int, b as int));
    }
    subvec(v, a, b)
}

/// `s` without a single trailing carriage return, if it has one.
pub open spec fn strip_cr(s: Seq<u8>) -> Seq<u8> {
    if s.len() > 0 && s.last() == '\r' as u8 {
        s.drop_last()
    } else {
        s
    }
}

/// The lines of `s`: split at each line feed, with one carriage return
/// stripped from the end of every terminated line. A final fragment without
/// a terminator is a line of its own; a trailing terminator adds no empty
/// final line.
pub open spec fn spec_lines(s: Seq<u8>) -> Seq<Seq<u8>>
    decreases s.len(),
{
    if s.len() == 0 {
        Seq::empty()
    } else {
        let i = find_class(s, ByteClass::LineFeed);
        if 0 <= i < s.len() {
            seq![strip_cr(s.take(i))] + spec_lines(s.skip(i + 1))
        } else {
            seq![s]
        }
    }
}

/// `spec_lines`, executably.
pub fn split_lines(v: &Vec<u8>) -> (r: Vec<Vec<u8>>)
    ensures
        r.deep_view() == spec_lines(v@),
{
    let mut r: Vec<Vec<u8>> = Vec::new();
    let mut pos: usize = 0;
    proof {
        assert(v@.skip(0) =~= v@);
        assert(r.deep_view() =~= Seq::<Seq<u8>>::empty());
        assert(r.deep_view() + spec_lines(v@) =~= spec_lines(v@));
    }
    while pos < v.len()
        invariant
            pos <= v@.len(),
            r.deep_view() + spec_lines(v@.skip(pos as int)) == spec_lines(v@),
        decreases v@.len() - pos,
    {
        let ghost p0 = pos as int;
        let ghost rest = v@.skip(pos as int);
        // scan for the next line feed
        let mut j: usize = pos;
        while j < v.len() && v[j] != '\n' as u8
            invariant
                pos <= j <= v@.len(),
                forall|k: int| pos <= k < j ==> v@[k] != '\n' as u8,
            decreases v@.len() - j,
        {
            j = j + 1;
        }
        proof {
            assert forall|k: int| 0 <= k < j - pos implies !in_class(
                rest[k],
                ByteClass::LineFeed,
            ) by {
                assert(rest[k] == v@[k + pos]);
            }
            if j < v@.len() {
                assert(rest[j - pos] == v@[j as int]);
                lemma_find_class_is(rest, ByteClass::LineFeed, j - pos);
            } else {
                lemma_find_class_none(rest, ByteClass::LineFeed);
            }
        }
        let ghost r_old = r.deep_view();
        if j == v.len() {
            // final line without a terminator
            let line = subvec(v, pos, j);
            assert(line@ =~= rest);
            r.push(line);
            pos = j;
            proof {
                assert(spec_lines(rest) =~= seq![rest]);
                assert(spec_lines(v@.skip(pos as int)) =~= Seq::<Seq<u8>>::empty());
                assert(line.deep_view() =~= line@);
                assert(r.deep_view() =~= r_old + seq![line@]);
                assert(r.deep_view() + spec_lines(v@.skip(pos as int)) =~= r_old + spec_lines(
                    rest,
                ));
            }
        } else {
            // a terminated line: strip one carriage return if present
            let end = if j > pos && v[j - 1] == '\r' as u8 {
                j - 1
            } else {
                j
            };
            let line = subvec(v, pos, end);
            proof {
                let seg = rest.take(j - pos);
                assert(seg =~= v@.subrange(pos as int, j as int));
                if j > pos {
                    assert(seg.last() == v@[j - 1]);
                }
                assert(strip_cr(seg) =~= v@.subrange(pos as int, end as int));
                assert(line@ == strip_cr(seg));
            }
            r.push(line);
            pos = j + 1;
            proof {
                let seg = rest.take(j - p0);
                assert(spec_lines(rest) == seq![strip_cr(seg)] + spec_lines(rest.skip(j - p0 + 1)));
                assert(rest.skip(j - p0 + 1) =~= v@.skip(pos as int));
                assert(line.deep_view() =~= line@);
                assert(r.deep_view() =~= r_old + seq![line@]);
                assert(r.deep_view() + spec_lines(v@.skip(pos as int)) =~= r_old + (seq![
                    strip_cr(seg),
                ] + spec_lines(rest.skip(j - p0 + 1))));
                assert(r_old + (seq![strip_cr(seg)] + spec_lines(rest.skip(j - p0 + 1))) =~= r_old
                    + spec_lines(rest));
            }
        }
    }
    proof {
        assert(spec_lines(v@.skip(pos as int)) =~= Seq::<Seq<u8>>::empty());
        assert(r.deep_view() =~= r.deep_view() + spec_lines(v@.skip(pos as int)));
    }
    r
}

/// The whitespace-separated tokens of `s`, in order: maximal runs of
/// non-whitespace bytes.
pub open spec fn spec_tokens(s: Seq<u8>) -> Seq<Seq<u8>>
    decreases s.len(),
{
    if s.len() == 0 {
        Seq::empty()
    } else if is_ws(s[0]) {
        spec_tokens(s.drop_first())
    } else {
        let j = find_class(s, ByteClass::Whitespace);
        if 1 <= j < s.len() {
            seq![s.take(j)] + spec_tokens(s.skip(j))
        } else {
            seq![s]
        }
    }
}

/// `spec_tokens`, executably.
pub fn split_tokens(v: &Vec<u8>) -> (r: Vec<Vec<u8>>)
    ensures
        r.deep_view() == spec_tokens(v@),
{
    let mut r: Vec<Vec<u8>> = Vec::new();
    let mut pos: usize = 0;
    proof {
        assert(v@.skip(0) =~= v@);
        assert(r.deep_view() =~= Seq::<Seq<u8>>::empty());
        assert(r.deep_view() + spec_tokens(v@) =~= spec_tokens(v@));
    }
    while pos < v.len()
        invariant
            pos <= v@.len(),
            r.deep_view() + spec_tokens(v@.skip(pos as int)) == spec_tokens(v@),
        decreases v@.len() - pos,
    {
        let ghost p0 = pos as int;
        let ghost rest = v@.skip(pos as int);
        if is_ws_byte(v[pos]) {
            pos = pos + 1;
            proof {
                assert(rest[0] == v@[p0]);
                assert(spec_tokens(rest) == spec_tokens(rest.drop_first()));
                assert(rest.drop_first() =~= v@.skip(pos as int));
            }
        } else {
            // scan to the end of the token
            let mut j: usize = pos;
            while j < v.len() && !is_ws_byte(v[j])
                invariant
                    pos <= j <= v@.len(),
                    forall|k: int| pos <= k < j ==> !is_ws(v@[k]),
                decreases v@.len() - j,
            {
                j = j + 1;
            }
            proof {
                assert forall|k: int| 0 <= k < j - p0 implies !in_class(
                    rest[k],
                    ByteClass::Whitespace,
                ) by {
                    assert(rest[k] == v@[k + p0]);
                }
                if j < v@.len() {
                    assert(rest[j - p0] == v@[j as int]);
                    lemma_find_class_is(rest, ByteClass::Whitespace, j - p0);
                } else {
                    lemma_find_class_none(rest, ByteClass::Whitespace);
                }
            }
            let tok = subvec(v, pos, j);
            let ghost r_old = r.deep_view();
            r.push(tok);
            proof {
                assert(tok.deep_view() =~= tok@);
                assert(r.deep_view() =~= r_old + seq![tok@]);
            }
            if j == v.len() {
                pos = j;
                proof {
                    assert(tok@ =~= rest);
                    assert(!is_ws(rest[0]));
                    assert(spec_tokens(rest) =~= seq![rest]);
                    assert(spec_tokens(v@.skip(pos as int)) =~= Seq::<Seq<u8>>::empty());
                    assert(r.deep_view() + spec_tokens(v@.skip(pos as int)) =~= r_old
                        + spec_tokens(rest));
                }
            } else {
                pos = j;
                proof {
                    assert(tok@ =~= rest.take(j - p0));
                    assert(!is_ws(rest[0]));
                    assert(spec_tokens(rest) == seq![rest.take(j - p0)] + spec_tokens(
                        rest.skip(j - p0),
                    ));
                    assert(rest.skip(j - p0) =~= v@.skip(pos as int));
                    assert(r.deep_view() + spec_tokens(v@.skip(pos as int)) =~= r_old + (seq![
                        rest.take(j - p0),
                    ] + spec_tokens(rest.skip(j - p0))));
                    assert(r_old + (seq![rest.take(j - p0)] + spec_tokens(rest.skip(j - p0)))
                        =~= r_old + spec_tokens(rest));
                }
            }
        }
    }
    proof {
        assert(spec_tokens(v@.skip(pos as int)) =~= Seq::<Seq<u8>>::empty());
        assert(r.deep_view() =~= r.deep_view() + spec_tokens(v@.skip(pos as int)));
    }
    r
}

/// The comma-separated fields of `s`, split at every comma, fields kept
/// verbatim. Every byte sequence has at least one field; an empty `s` has
/// exactly one, itself empty.
pub open spec fn spec_comma_split(s: Seq<u8>) -> Seq<Seq<u8>>
    decreases s.len(),
{
    let i = find_class(s, ByteClass::Comma);
    if 0 <= i < s.len() {
        seq![s.take(i)] + spec_comma_split(s.skip(i + 1))
    } else {
        seq![s]
    }
}

/// Element views of a vector of byte vectors: its deep view is the sequence
/// of the elements' views.
pub proof fn lemma_deep_view_bytes(v: Vec<Vec<u8>>)
    ensures
        v.deep_view().len() == v@.len(),
        forall|i: int| 0 <= i < v@.len() ==> v.deep_view()[i] == v@[i]@,
{
    assert forall|i: int| 0 <= i < v@.len() implies v.deep_view()[i] == v@[i]@ by {
        assert(v@[i].deep_view() =~= v@[i]@);
    }
}

} // verus!
