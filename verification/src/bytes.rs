//! Byte strings: comparison, copying and splitting on delimiters.
use vstd::prelude::*;

verus! {

/// The byte strings that a vector of byte vectors holds, in order.
pub open spec fn rows(v: Seq<Vec<u8>>) -> Seq<Seq<u8>> {
    v.map_values(|r: Vec<u8>| r@)
}

/// Whether two byte strings hold the same bytes.
pub fn bytes_eq(a: &[u8], b: &[u8]) -> (same: bool)
    ensures
        same == (a@ == b@),
{
    if a.len() != b.len() {
        return false;
    }
    let mut i: usize = 0;
    while i < a.len()
        invariant
            a@.len() == b@.len(),
            i <= a@.len(),
            forall|k: int| 0 <= k < i ==> a@[k] == b@[k],
        decreases a.len() - i,
    {
        if a[i] != b[i] {
            return false;
        }
        i += 1;
    }
    assert(a@ =~= b@);
    true
}

/// A fresh copy of the bytes from `from` up to, not including, `to`.
pub fn copy_range(text: &[u8], from: usize, to: usize) -> (out: Vec<u8>)
    requires
        from <= to <= text@.len(),
    ensures
        out@ == text@.subrange(from as int, to as int),
{
    let mut out: Vec<u8> = Vec::new();
    let mut i: usize = from;
    while i < to
        invariant
            from <= i <= to <= text@.len(),
            out@ == text@.subrange(from as int, i as int),
        decreases to - i,
    {
        out.push(text[i]);
        assert(out@ =~= text@.subrange(from as int, i + 1));
        i += 1;
    }
    out
}

/// Whether `text` ends with `suffix`.
pub open spec fn has_suffix(text: Seq<u8>, suffix: Seq<u8>) -> bool {
    suffix.len() <= text.len() && text.subrange(text.len() - suffix.len(), text.len() as int)
        == suffix
}

/// Whether `text` begins with `prefix`.
pub open spec fn has_prefix(text: Seq<u8>, prefix: Seq<u8>) -> bool {
    prefix.len() <= text.len() && text.subrange(0, prefix.len() as int) == prefix
}

pub fn ends_with(text: &[u8], suffix: &[u8]) -> (yes: bool)
    ensures
        yes == has_suffix(text@, suffix@),
{
    if suffix.len() > text.len() {
        return false;
    }
    let base: usize = text.len() - suffix.len();
    let mut i: usize = 0;
    while i < suffix.len()
        invariant
            base + suffix@.len() == text@.len(),
            text@.len() <= usize::MAX,
            i <= suffix@.len(),
            forall|k: int| 0 <= k < i ==> text@[base + k] == suffix@[k],
        decreases suffix.len() - i,
    {
        if text[base + i] != suffix[i] {
            assert(text@.subrange(base as int, text@.len() as int)[i as int] != suffix@[i as int]);
            return false;
        }
        i += 1;
    }
    assert(text@.subrange(base as int, text@.len() as int) =~= suffix@);
    true
}

pub fn starts_with(text: &[u8], prefix: &[u8]) -> (yes: bool)
    ensures
        yes == has_prefix(text@, prefix@),
{
    if prefix.len() > text.len() {
        return false;
    }
    let mut i: usize = 0;
    while i < prefix.len()
        invariant
            prefix@.len() <= text@.len(),
            i <= prefix@.len(),
            forall|k: int| 0 <= k < i ==> text@[k] == prefix@[k],
        decreases prefix.len() - i,
    {
        if text[i] != prefix[i] {
            assert(text@.subrange(0, prefix@.len() as int)[i as int] != prefix@[i as int]);
            return false;
        }
        i += 1;
    }
    assert(text@.subrange(0, prefix@.len() as int) =~= prefix@);
    true
}

/// `a` followed by `b`.
pub fn append(a: &[u8], b: &[u8]) -> (out: Vec<u8>)
    ensures
        out@ == a@ + b@,
{
    let mut out: Vec<u8> = copy_range(a, 0, a.len());
    assert(out@ =~= a@);
    let mut i: usize = 0;
    while i < b.len()
        invariant
            i <= b@.len(),
            out@ == a@ + b@.subrange(0, i as int),
        decreases b.len() - i,
    {
        out.push(b[i]);
        assert(out@ =~= a@ + b@.subrange(0, i + 1));
        i += 1;
    }
    assert(b@.subrange(0, b@.len() as int) =~= b@);
    out
}

/// What separates the pieces of a text.
#[derive(Clone, Copy, PartialEq, Eq, Structural, Debug)]
pub enum Delim {
    /// Space, tab, line feed, vertical tab, form feed, carriage return.
    Blank,
    /// Line feed.
    Line,
    /// Line feed or semicolon.
    Statement,
    /// Slash.
    Slash,
    /// Equals sign.
    Equals,
}

/// Space, tab, line feed, vertical tab, form feed or carriage return.
pub open spec fn is_blank(b: u8) -> bool {
    b == 32 || (9 <= b && b <= 13)
}

/// Whether byte `b` separates pieces under `d`.
pub open spec fn delimits(d: Delim, b: u8) -> bool {
    match d {
        Delim::Blank => is_blank(b),
        Delim::Line => b == 10,
        Delim::Statement => b == 10 || b == 59,
        Delim::Slash => b == 47,
        Delim::Equals => b == 61,
    }
}

pub fn is_delim(d: Delim, b: u8) -> (yes: bool)
    ensures
        yes == delimits(d, b),
{
    match d {
        Delim::Blank => b == 32 || (9 <= b && b <= 13),
        Delim::Line => b == 10,
        Delim::Statement => b == 10 || b == 59,
        Delim::Slash => b == 47,
        Delim::Equals => b == 61,
    }
}

/// How many bytes at the start of `s` are no delimiter.
pub open spec fn run_len(s: Seq<u8>, d: Delim) -> nat
    decreases s.len(),
{
    if s.len() == 0 || delimits(d, s[0]) {
        0
    } else {
        1 + run_len(s.skip(1), d)
    }
}

/// The maximal runs of bytes that are no delimiter, in order. No piece is
/// empty and none holds a delimiter.
pub open spec fn pieces(s: Seq<u8>, d: Delim) -> Seq<Seq<u8>>
    decreases s.len(),
    via pieces_decreases
{
    if s.len() == 0 {
        Seq::empty()
    } else if delimits(d, s[0]) {
        pieces(s.skip(1), d)
    } else {
        seq![s.take(run_len(s, d) as int)] + pieces(s.skip(run_len(s, d) as int), d)
    }
}

#[via_fn]
proof fn pieces_decreases(s: Seq<u8>, d: Delim) {
    if s.len() > 0 && !delimits(d, s[0]) {
        lemma_run_len_bound(s, d);
    }
}

/// A run is no longer than the text, holds no delimiter, and ends at a
/// delimiter or at the end of the text.
pub proof fn lemma_run_len_bound(s: Seq<u8>, d: Delim)
    ensures
        run_len(s, d) <= s.len(),
        s.len() > 0 && !delimits(d, s[0]) ==> run_len(s, d) >= 1,
        forall|k: int| 0 <= k < run_len(s, d) ==> !delimits(d, #[trigger] s[k]),
        run_len(s, d) < s.len() ==> delimits(d, s[run_len(s, d) as int]),
    decreases s.len(),
{
    if s.len() == 0 || delimits(d, s[0]) {
    } else {
        lemma_run_len_bound(s.skip(1), d);
        assert forall|k: int| 0 <= k < run_len(s, d) implies !delimits(d, #[trigger] s[k]) by {
            if k > 0 {
                assert(s[k] == s.skip(1)[k - 1]);
            }
        }
        if run_len(s, d) < s.len() {
            assert(s[run_len(s, d) as int] == s.skip(1)[run_len(s.skip(1), d) as int]);
        }
    }
}

/// A prefix without delimiters that ends at a delimiter, or at the end of the
/// text, is the run.
pub proof fn lemma_run_len_is(s: Seq<u8>, d: Delim, n: nat)
    requires
        n <= s.len(),
        forall|k: int| 0 <= k < n ==> !delimits(d, #[trigger] s[k]),
        n < s.len() ==> delimits(d, s[n as int]),
    ensures
        run_len(s, d) == n,
    decreases n,
{
    if n == 0 {
    } else {
        let t = s.skip(1);
        assert forall|k: int| 0 <= k < n - 1 implies !delimits(d, #[trigger] t[k]) by {
            assert(t[k] == s[k + 1]);
        }
        if n - 1 < t.len() {
            assert(t[n - 1] == s[n as int]);
        }
        lemma_run_len_is(t, d, (n - 1) as nat);
    }
}

/// A non-empty byte string without a delimiter.
pub open spec fn is_clean(p: Seq<u8>, d: Delim) -> bool {
    p.len() > 0 && forall|k: int| 0 <= k < p.len() ==> !delimits(d, #[trigger] p[k])
}

/// Every piece is non-empty and free of delimiters.
pub proof fn law_pieces_are_clean(s: Seq<u8>, d: Delim)
    ensures
        forall|i: int| 0 <= i < pieces(s, d).len() ==> is_clean(#[trigger] pieces(s, d)[i], d),
    decreases s.len(),
{
    if s.len() == 0 {
        assert(pieces(s, d).len() == 0);
    } else if delimits(d, s[0]) {
        law_pieces_are_clean(s.skip(1), d);
        assert(pieces(s, d) == pieces(s.skip(1), d));
    } else {
        lemma_run_len_bound(s, d);
        let n = run_len(s, d) as int;
        law_pieces_are_clean(s.skip(n), d);
        assert(pieces(s, d) == seq![s.take(n)] + pieces(s.skip(n), d));
        let head = s.take(n);
        let rest = pieces(s.skip(n), d);
        assert(is_clean(head, d)) by {
            assert forall|k: int| 0 <= k < head.len() implies !delimits(d, #[trigger] head[k]) by {
                assert(head[k] == s[k]);
            }
        }
        assert forall|i: int| 0 <= i < pieces(s, d).len() implies is_clean(
            #[trigger] pieces(s, d)[i],
            d,
        ) by {
            if i > 0 {
                assert(pieces(s, d)[i] == rest[i - 1]);
            }
        }
    }
}

/// Splits `text` into its pieces under `d`.
pub fn split(text: &[u8], d: Delim) -> (out: Vec<Vec<u8>>)
    ensures
        rows(out@) == pieces(text@, d),
{
    let mut out: Vec<Vec<u8>> = Vec::new();
    let mut i: usize = 0;
    assert(text@.skip(0) =~= text@);
    assert(rows(out@) + pieces(text@.skip(0), d) =~= pieces(text@, d));
    while i < text.len()
        invariant
            i <= text@.len(),
            rows(out@) + pieces(text@.skip(i as int), d) == pieces(text@, d),
        decreases text.len() - i,
    {
        let ghost here = text@.skip(i as int);
        if is_delim(d, text[i]) {
            assert(here[0] == text@[i as int]);
            assert(here.skip(1) =~= text@.skip(i + 1));
            i += 1;
        } else {
            let mut j: usize = i + 1;
            while j < text.len() && !is_delim(d, text[j])
                invariant
                    i < j <= text@.len(),
                    forall|k: int| i <= k < j ==> !delimits(d, #[trigger] text@[k]),
                decreases text.len() - j,
            {
                j += 1;
            }
            proof {
                let n = (j - i) as nat;
                assert forall|k: int| 0 <= k < n implies !delimits(d, #[trigger] here[k]) by {
                    assert(here[k] == text@[i + k]);
                }
                if n < here.len() {
                    assert(here[n as int] == text@[j as int]);
                }
                lemma_run_len_is(here, d, n);
                assert(here[0] == text@[i as int]);
                assert(here.take(n as int) =~= text@.subrange(i as int, j as int));
                assert(here.skip(n as int) =~= text@.skip(j as int));
            }
            let piece = copy_range(text, i, j);
            let ghost before = rows(out@);
            out.push(piece);
            assert(rows(out@) =~= before + seq![piece@]);
            assert((before + seq![piece@]) + pieces(text@.skip(j as int), d) =~= before + (
                seq![piece@] + pieces(text@.skip(j as int), d)));
            i = j;
        }
    }
    assert(pieces(text@.skip(i as int), d) =~= Seq::<Seq<u8>>::empty());
    assert(rows(out@) + Seq::<Seq<u8>>::empty() =~= rows(out@));
    out
}

} // verus!
