use vstd::prelude::*;
use crate::text::{
    append_chars, chars_eq, is_whitespace, trim_chars, is_ws, trim_seq, views_of, string_of,
};

verus! {

// ---------------------------------------------------------------------------
// Splitting
// ---------------------------------------------------------------------------

/// `str::split(sep)`: the pieces between occurrences of `sep`, empty pieces
/// included; a text without `sep` is one piece.
pub open spec fn split_by(s: Seq<char>, sep: char) -> Seq<Seq<char>>
    decreases s.len(),
{
    if s.len() == 0 {
        seq![Seq::<char>::empty()]
    } else {
        let prev = split_by(s.drop_last(), sep);
        if s.last() == sep {
            prev.push(Seq::<char>::empty())
        } else {
            prev.update(prev.len() - 1, prev.last().push(s.last()))
        }
    }
}

/// `str::split(char::is_whitespace)`.
pub open spec fn split_ws_raw(s: Seq<char>) -> Seq<Seq<char>>
    decreases s.len(),
{
    if s.len() == 0 {
        seq![Seq::<char>::empty()]
    } else {
        let prev = split_ws_raw(s.drop_last());
        if is_ws(s.last()) {
            prev.push(Seq::<char>::empty())
        } else {
            prev.update(prev.len() - 1, prev.last().push(s.last()))
        }
    }
}

/// The non-empty pieces, in order.
pub open spec fn nonempty_parts(parts: Seq<Seq<char>>) -> Seq<Seq<char>>
    decreases parts.len(),
{
    if parts.len() == 0 {
        Seq::empty()
    } else {
        let prev = nonempty_parts(parts.drop_last());
        if parts.last().len() == 0 {
            prev
        } else {
            prev.push(parts.last())
        }
    }
}

/// `str::split_whitespace`: the maximal runs of non-whitespace characters.
pub open spec fn split_whitespace_seq(s: Seq<char>) -> Seq<Seq<char>> {
    nonempty_parts(split_ws_raw(s))
}

/// `.map(str::trim).filter(|v| !v.is_empty())`.
pub open spec fn trimmed_parts(parts: Seq<Seq<char>>) -> Seq<Seq<char>>
    decreases parts.len(),
{
    if parts.len() == 0 {
        Seq::empty()
    } else {
        let prev = trimmed_parts(parts.drop_last());
        let t = trim_seq(parts.last());
        if t.len() == 0 {
            prev
        } else {
            prev.push(t)
        }
    }
}

/// The first occurrence of each piece, in order of first appearance.
pub open spec fn dedup_seq(parts: Seq<Seq<char>>) -> Seq<Seq<char>>
    decreases parts.len(),
{
    if parts.len() == 0 {
        Seq::empty()
    } else {
        let prev = dedup_seq(parts.drop_last());
        if prev.contains(parts.last()) {
            prev
        } else {
            prev.push(parts.last())
        }
    }
}

/// `[..].join(sep)`.
pub open spec fn join_seq(parts: Seq<Seq<char>>, sep: Seq<char>) -> Seq<char>
    decreases parts.len(),
{
    if parts.len() == 0 {
        Seq::empty()
    } else if parts.len() == 1 {
        parts[0]
    } else {
        join_seq(parts.drop_last(), sep) + sep + parts.last()
    }
}

/// `str::contains` with a text pattern.
pub open spec fn has_substring(hay: Seq<char>, needle: Seq<char>) -> bool {
    exists|i: int|
        0 <= i && i + needle.len() <= hay.len() && #[trigger] hay.subrange(i, i + needle.len())
            == needle
}

/// The pieces kept by `trimmed_parts` are trimmed and not empty.
pub proof fn lemma_trimmed_parts_clean(parts: Seq<Seq<char>>)
    ensures
        forall|i: int| 0 <= i < trimmed_parts(parts).len() ==> (#[trigger] trimmed_parts(parts)[i]).len() > 0
            && trim_seq(trimmed_parts(parts)[i]) == trimmed_parts(parts)[i],
    decreases parts.len(),
{
    if parts.len() > 0 {
        let prev = trimmed_parts(parts.drop_last());
        let t = trim_seq(parts.last());
        lemma_trimmed_parts_clean(parts.drop_last());
        crate::text::lemma_trim_idempotent(parts.last());
        assert forall|i: int| 0 <= i < trimmed_parts(parts).len() implies (#[trigger] trimmed_parts(parts)[i]).len() > 0
            && trim_seq(trimmed_parts(parts)[i]) == trimmed_parts(parts)[i] by {
            if i < prev.len() {
                assert(trimmed_parts(parts)[i] == prev[i]);
            } else {
                assert(trimmed_parts(parts)[i] == t);
            }
        }
    }
}

pub proof fn lemma_split_by_nonempty(s: Seq<char>, sep: char)
    ensures
        split_by(s, sep).len() >= 1,
    decreases s.len(),
{
    if s.len() > 0 {
        lemma_split_by_nonempty(s.drop_last(), sep);
    }
}

/// No piece of a split holds the separator.
pub proof fn lemma_split_by_no_sep(s: Seq<char>, sep: char)
    ensures
        forall|k: int|
            0 <= k < split_by(s, sep).len() ==> !(#[trigger] split_by(s, sep)[k]).contains(sep),
    decreases s.len(),
{
    if s.len() > 0 {
        lemma_split_by_no_sep(s.drop_last(), sep);
        lemma_split_by_nonempty(s.drop_last(), sep);
        let prev = split_by(s.drop_last(), sep);
        if s.last() != sep {
            assert forall|k: int|
                0 <= k < split_by(s, sep).len() implies !(#[trigger] split_by(
                s,
                sep,
            )[k]).contains(sep) by {
                if k == prev.len() - 1 {
                    let p = prev.last().push(s.last());
                    assert(!prev[k].contains(sep));
                    if p.contains(sep) {
                        let j = choose|j: int| 0 <= j < p.len() && p[j] == sep;
                        if j < prev.last().len() {
                            assert(prev.last()[j] == sep);
                        }
                    }
                }
            }
        }
    }
}

pub fn split_chars(v: &Vec<char>, sep: char) -> (r: Vec<Vec<char>>)
    ensures
        views_of(r@) == split_by(v@, sep),
{
    let n = v.len();
    let mut parts: Vec<Vec<char>> = Vec::new();
    let mut cur: Vec<char> = Vec::new();
    let mut i: usize = 0;
    assert(v@.take(0) =~= Seq::<char>::empty());
    assert(views_of(parts@).push(cur@) =~= seq![Seq::<char>::empty()]);
    while i < n
        invariant
            i <= n == v.len(),
            views_of(parts@).push(cur@) == split_by(v@.take(i as int), sep),
        decreases n - i,
    {
        let c = v[i];
        assert(v@.take(i + 1).drop_last() =~= v@.take(i as int));
        assert(v@.take(i + 1).last() == c);
        let ghost prev = split_by(v@.take(i as int), sep);
        if c == sep {
            parts.push(cur);
            cur = Vec::new();
            assert(views_of(parts@).push(cur@) =~= prev.push(Seq::<char>::empty()));
        } else {
            cur.push(c);
            assert(views_of(parts@).push(cur@) =~= prev.update(
                prev.len() - 1,
                prev.last().push(c),
            ));
        }
        i += 1;
    }
    parts.push(cur);
    assert(v@.take(n as int) =~= v@);
    assert(views_of(parts@) =~= split_by(v@, sep));
    parts
}

fn split_ws_raw_chars(v: &Vec<char>) -> (r: Vec<Vec<char>>)
    ensures
        views_of(r@) == split_ws_raw(v@),
{
    let n = v.len();
    let mut parts: Vec<Vec<char>> = Vec::new();
    let mut cur: Vec<char> = Vec::new();
    let mut i: usize = 0;
    assert(v@.take(0) =~= Seq::<char>::empty());
    assert(views_of(parts@).push(cur@) =~= seq![Seq::<char>::empty()]);
    while i < n
        invariant
            i <= n == v.len(),
            views_of(parts@).push(cur@) == split_ws_raw(v@.take(i as int)),
        decreases n - i,
    {
        let c = v[i];
        assert(v@.take(i + 1).drop_last() =~= v@.take(i as int));
        assert(v@.take(i + 1).last() == c);
        let ghost prev = split_ws_raw(v@.take(i as int));
        if is_whitespace(c) {
            parts.push(cur);
            cur = Vec::new();
            assert(views_of(parts@).push(cur@) =~= prev.push(Seq::<char>::empty()));
        } else {
            cur.push(c);
            assert(views_of(parts@).push(cur@) =~= prev.update(
                prev.len() - 1,
                prev.last().push(c),
            ));
        }
        i += 1;
    }
    parts.push(cur);
    assert(v@.take(n as int) =~= v@);
    assert(views_of(parts@) =~= split_ws_raw(v@));
    parts
}

pub fn nonempty_chars(parts: Vec<Vec<char>>) -> (r: Vec<Vec<char>>)
    ensures
        views_of(r@) == nonempty_parts(views_of(parts@)),
{
    let ghost orig = views_of(parts@);
    let mut r: Vec<Vec<char>> = Vec::new();
    let mut parts = parts;
    let mut i: usize = 0;
    let n = parts.len();
    while i < n
        invariant
            i <= n == parts.len(),
            orig.len() == n,
            forall|k: int| i <= k < n ==> parts@[k]@ == #[trigger] orig[k],
            views_of(r@) == nonempty_parts(orig.take(i as int)),
        decreases n - i,
    {
        assert(orig.take(i + 1).drop_last() =~= orig.take(i as int));
        let mut p: Vec<char> = Vec::new();
        std::mem::swap(&mut p, &mut parts[i]);
        assert(p@ == orig[i as int]);
        if p.len() > 0 {
            r.push(p);
            assert(views_of(r@) =~= nonempty_parts(orig.take(i as int)).push(orig[i as int]));
        }
        i += 1;
    }
    assert(orig.take(n as int) =~= orig);
    r
}

/// `str::split_whitespace`, collected.
pub fn split_whitespace_chars(v: &Vec<char>) -> (r: Vec<Vec<char>>)
    ensures
        views_of(r@) == split_whitespace_seq(v@),
{
    let raw = split_ws_raw_chars(v);
    nonempty_chars(raw)
}

pub fn trimmed_nonempty(parts: &Vec<Vec<char>>) -> (r: Vec<Vec<char>>)
    ensures
        views_of(r@) == trimmed_parts(views_of(parts@)),
{
    let ghost orig = views_of(parts@);
    let mut r: Vec<Vec<char>> = Vec::new();
    let mut i: usize = 0;
    let n = parts.len();
    while i < n
        invariant
            i <= n == parts.len(),
            orig == views_of(parts@),
            views_of(r@) == trimmed_parts(orig.take(i as int)),
        decreases n - i,
    {
        assert(orig.take(i + 1).drop_last() =~= orig.take(i as int));
        let t = trim_chars(&parts[i]);
        if t.len() > 0 {
            r.push(t);
            assert(views_of(r@) =~= trimmed_parts(orig.take(i as int)).push(
                trim_seq(orig[i as int]),
            ));
        }
        i += 1;
    }
    assert(orig.take(n as int) =~= orig);
    r
}

pub fn contains_part(parts: &Vec<Vec<char>>, x: &Vec<char>) -> (b: bool)
    ensures
        b == views_of(parts@).contains(x@),
{
    let mut i: usize = 0;
    while i < parts.len()
        invariant
            i <= parts.len(),
            forall|k: int| 0 <= k < i ==> parts@[k]@ != x@,
        decreases parts.len() - i,
    {
        if chars_eq(&parts[i], x) {
            assert(views_of(parts@)[i as int] == x@);
            return true;
        }
        i += 1;
    }
    assert(!views_of(parts@).contains(x@)) by {
        if views_of(parts@).contains(x@) {
            let k = choose|k: int| 0 <= k < views_of(parts@).len() && views_of(parts@)[k] == x@;
            assert(parts@[k]@ == x@);
        }
    }
    false
}

pub fn dedup_chars(parts: Vec<Vec<char>>) -> (r: Vec<Vec<char>>)
    ensures
        views_of(r@) == dedup_seq(views_of(parts@)),
{
    let ghost orig = views_of(parts@);
    let mut parts = parts;
    let mut r: Vec<Vec<char>> = Vec::new();
    let mut i: usize = 0;
    let n = parts.len();
    while i < n
        invariant
            i <= n == parts.len(),
            orig.len() == n,
            forall|k: int| i <= k < n ==> parts@[k]@ == #[trigger] orig[k],
            views_of(r@) == dedup_seq(orig.take(i as int)),
        decreases n - i,
    {
        assert(orig.take(i + 1).drop_last() =~= orig.take(i as int));
        let mut p: Vec<char> = Vec::new();
        std::mem::swap(&mut p, &mut parts[i]);
        assert(p@ == orig[i as int]);
        if !contains_part(&r, &p) {
            r.push(p);
            assert(views_of(r@) =~= dedup_seq(orig.take(i as int)).push(orig[i as int]));
        }
        i += 1;
    }
    assert(orig.take(n as int) =~= orig);
    r
}

pub fn join_chars(parts: &Vec<Vec<char>>, sep: &Vec<char>) -> (r: Vec<char>)
    ensures
        r@ == join_seq(views_of(parts@), sep@),
{
    let ghost orig = views_of(parts@);
    let mut r: Vec<char> = Vec::new();
    let mut i: usize = 0;
    let n = parts.len();
    while i < n
        invariant
            i <= n == parts.len(),
            orig == views_of(parts@),
            r@ == join_seq(orig.take(i as int), sep@),
        decreases n - i,
    {
        assert(orig.take(i + 1).drop_last() =~= orig.take(i as int));
        if i > 0 {
            append_chars(&mut r, sep);
        }
        append_chars(&mut r, &parts[i]);
        proof {
            if i == 0 {
                assert(r@ =~= orig.take(1)[0]);
            } else {
                assert(orig.take(i + 1).last() == orig[i as int]);
            }
        }
        i += 1;
    }
    assert(orig.take(n as int) =~= orig);
    r
}

pub fn contains_sub(hay: &Vec<char>, needle: &Vec<char>) -> (b: bool)
    ensures
        b == has_substring(hay@, needle@),
{
    let n = hay.len();
    let m = needle.len();
    if m > n {
        return false;
    }
    let mut i: usize = 0;
    while i <= n - m
        invariant
            m <= n == hay.len(),
            m == needle.len(),
            forall|k: int| 0 <= k < i ==> #[trigger] hay@.subrange(k, k + m) != needle@,
        decreases n - m + 1 - i,
    {
        let mut j: usize = 0;
        let mut same = true;
        while j < m
            invariant
                i + m <= n == hay.len(),
                m == needle.len(),
                j <= m,
                same == (forall|t: int| 0 <= t < j ==> hay@[i + t] == needle@[t]),
            decreases m - j,
        {
            if hay[i + j] != needle[j] {
                same = false;
            }
            j += 1;
        }
        if same {
            assert(hay@.subrange(i as int, i + m) =~= needle@);
            return true;
        }
        assert(hay@.subrange(i as int, i + m) != needle@) by {
            let t = choose|t: int| 0 <= t < m && hay@[i + t] != needle@[t];
            assert(hay@.subrange(i as int, i + m)[t] == hay@[i + t]);
        }
        i += 1;
    }
    assert forall|k: int|
        0 <= k && k + needle@.len() <= hay@.len() implies #[trigger] hay@.subrange(
        k,
        k + needle@.len(),
    ) != needle@ by {
        assert(k < i);
    }
    false
}

// ---------------------------------------------------------------------------
// Numbers as text
// ---------------------------------------------------------------------------

pub open spec fn digit_char(d: nat) -> char {
    (('0' as u32) + d) as char
}

/// The decimal digits of `n`, as `u64::to_string` writes them.
pub open spec fn decimal_seq(n: nat) -> Seq<char>
    decreases n,
{
    if n < 10 {
        seq![digit_char(n)]
    } else {
        decimal_seq(n / 10).push(digit_char(n % 10))
    }
}

pub fn decimal_chars(n: u64) -> (r: Vec<char>)
    ensures
        r@ == decimal_seq(n as nat),
    decreases n,
{
    let d = (n % 10) as u8;
    let c = ('0' as u8 + d) as char;
    if n < 10 {
        let mut r: Vec<char> = Vec::new();
        r.push(c);
        assert(r@ =~= seq![digit_char(n as nat)]);
        r
    } else {
        let mut r = decimal_chars(n / 10);
        r.push(c);
        r
    }
}

pub fn decimal_text(n: u64) -> (r: String)
    ensures
        r@ == decimal_seq(n as nat),
{
    let v = decimal_chars(n);
    string_of(&v)
}

pub open spec fn hex_digit(d: nat) -> char {
    if d < 10 {
        (('0' as u32) + d) as char
    } else {
        (('a' as u32) + (d - 10)) as char
    }
}

/// The `width` lowest hexadecimal digits of `v`, lower case, most
/// significant first (`{:0width$x}` for a value below `16^width`).
pub open spec fn hex_fixed(v: nat, width: nat) -> Seq<char>
    decreases width,
{
    if width == 0 {
        Seq::empty()
    } else {
        hex_fixed(v / 16, (width - 1) as nat).push(hex_digit(v % 16))
    }
}

pub fn hex_fixed_chars(v: u64, width: u32) -> (r: Vec<char>)
    ensures
        r@ == hex_fixed(v as nat, width as nat),
    decreases width,
{
    if width == 0 {
        Vec::new()
    } else {
        let mut r = hex_fixed_chars(v / 16, width - 1);
        let d = (v % 16) as u8;
        let c = if d < 10 {
            ('0' as u8 + d) as char
        } else {
            ('a' as u8 + (d - 10)) as char
        };
        r.push(c);
        r
    }
}

} // verus!
