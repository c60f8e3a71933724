//! Character-level text rules: Unicode white space, trimming, whitespace
//! normalisation, hexadecimal and ASCII classes.

use vstd::prelude::*;
use crate::std_glue::{chars_of, string_from_chars};

verus! {

/// The characters with the Unicode `White_Space` property, which is what
/// `char::is_whitespace`, `str::trim` and `str::split_whitespace` use.
pub open spec fn is_white_space(c: char) -> bool {
    ||| '\u{9}' <= c <= '\u{d}'
    ||| c == ' '
    ||| c == '\u{85}'
    ||| c == '\u{a0}'
    ||| c == '\u{1680}'
    ||| '\u{2000}' <= c <= '\u{200a}'
    ||| c == '\u{2028}'
    ||| c == '\u{2029}'
    ||| c == '\u{202f}'
    ||| c == '\u{205f}'
    ||| c == '\u{3000}'
}

/// `char::is_whitespace`.
pub fn is_whitespace(c: char) -> (b: bool)
    ensures
        b == is_white_space(c),
{
    ('\u{9}' <= c && c <= '\u{d}') || c == ' ' || c == '\u{85}' || c == '\u{a0}' || c
        == '\u{1680}' || ('\u{2000}' <= c && c <= '\u{200a}') || c == '\u{2028}' || c == '\u{2029}'
        || c == '\u{202f}' || c == '\u{205f}' || c == '\u{3000}'
}

/// Index of the first character of `s` that is not white space at or after `k`.
pub open spec fn first_non_ws_from(s: Seq<char>, k: int) -> int
    decreases s.len() - k,
{
    if k >= s.len() {
        s.len() as int
    } else if is_white_space(s[k]) {
        first_non_ws_from(s, k + 1)
    } else {
        k
    }
}

/// One past the index of the last character of `s` before `k` that is not white space.
pub open spec fn last_non_ws_before(s: Seq<char>, k: int) -> int
    decreases k,
{
    if k <= 0 {
        0
    } else if is_white_space(s[k - 1]) {
        last_non_ws_before(s, k - 1)
    } else {
        k
    }
}

/// `str::trim`: `s` without leading and trailing white space.
pub open spec fn trim_spec(s: Seq<char>) -> Seq<char> {
    let start = first_non_ws_from(s, 0);
    let end = last_non_ws_before(s, s.len() as int);
    if start < end {
        s.subrange(start, end)
    } else {
        seq![]
    }
}

proof fn lemma_first_non_ws(s: Seq<char>, k: int)
    requires
        0 <= k <= s.len(),
    ensures
        k <= first_non_ws_from(s, k) <= s.len(),
        forall|i: int| k <= i < first_non_ws_from(s, k) ==> is_white_space(s[i]),
        first_non_ws_from(s, k) < s.len() ==> !is_white_space(s[first_non_ws_from(s, k)]),
    decreases s.len() - k,
{
    if k < s.len() && is_white_space(s[k]) {
        lemma_first_non_ws(s, k + 1);
    }
}

proof fn lemma_last_non_ws(s: Seq<char>, k: int)
    requires
        0 <= k <= s.len(),
    ensures
        0 <= last_non_ws_before(s, k) <= k,
        forall|i: int| last_non_ws_before(s, k) <= i < k ==> is_white_space(s[i]),
        last_non_ws_before(s, k) > 0 ==> !is_white_space(s[last_non_ws_before(s, k) - 1]),
    decreases k,
{
    if k > 0 && is_white_space(s[k - 1]) {
        lemma_last_non_ws(s, k - 1);
    }
}

/// Trimming text that starts and ends with non-white-space changes nothing.
pub proof fn trim_of_tight_text(s: Seq<char>)
    requires
        s.len() > 0,
        !is_white_space(s[0]),
        !is_white_space(s[s.len() - 1]),
    ensures
        trim_spec(s) == s,
{
    assert(s.subrange(0, s.len() as int) =~= s);
}

proof fn lemma_first_non_ws_at(s: Seq<char>, k: int, a: int)
    requires
        0 <= k <= a < s.len(),
        forall|i: int| k <= i < a ==> is_white_space(#[trigger] s[i]),
        !is_white_space(s[a]),
    ensures
        first_non_ws_from(s, k) == a,
    decreases a - k,
{
    if k < a {
        lemma_first_non_ws_at(s, k + 1, a);
    }
}

proof fn lemma_last_non_ws_at(s: Seq<char>, k: int, b: int)
    requires
        0 < b <= k <= s.len(),
        forall|i: int| b <= i < k ==> is_white_space(#[trigger] s[i]),
        !is_white_space(s[b - 1]),
    ensures
        last_non_ws_before(s, k) == b,
    decreases k - b,
{
    if b < k {
        lemma_last_non_ws_at(s, k - 1, b);
    }
}

/// Trimming removes any white space added around text that starts and ends
/// with characters that are not white space.
pub proof fn trim_of_padded(w1: Seq<char>, t: Seq<char>, w2: Seq<char>)
    requires
        t.len() > 0,
        !is_white_space(t[0]),
        !is_white_space(t[t.len() - 1]),
        forall|i: int| 0 <= i < w1.len() ==> is_white_space(#[trigger] w1[i]),
        forall|i: int| 0 <= i < w2.len() ==> is_white_space(#[trigger] w2[i]),
    ensures
        trim_spec(w1 + t + w2) == t,
{
    let s = w1 + t + w2;
    let a = w1.len() as int;
    let b = (w1.len() + t.len()) as int;
    assert forall|i: int| 0 <= i < a implies is_white_space(#[trigger] s[i]) by {
        assert(s[i] == w1[i]);
    }
    assert forall|i: int| b <= i < s.len() implies is_white_space(#[trigger] s[i]) by {
        assert(s[i] == w2[i - b]);
    }
    assert(s[a] == t[0]);
    assert(s[b - 1] == t[t.len() - 1]);
    lemma_first_non_ws_at(s, 0, a);
    lemma_last_non_ws_at(s, s.len() as int, b);
    assert(s.subrange(a, b) =~= t);
}

/// `str::trim`.
pub fn trim(s: &str) -> (res: String)
    ensures
        res@ == trim_spec(s@),
{
    let cs = chars_of(s);
    let mut start: usize = 0;
    while start < cs.len() && is_whitespace(cs[start])
        invariant
            start <= cs.len(),
            cs@ == s@,
            first_non_ws_from(s@, start as int) == first_non_ws_from(s@, 0),
        decreases cs.len() - start,
    {
        start = start + 1;
    }
    let mut end: usize = cs.len();
    while end > 0 && is_whitespace(cs[end - 1])
        invariant
            end <= cs.len(),
            cs@ == s@,
            last_non_ws_before(s@, end as int) == last_non_ws_before(s@, s@.len() as int),
        decreases end,
    {
        end = end - 1;
    }
    let mut out: Vec<char> = Vec::new();
    if start < end {
        let mut i = start;
        while i < end
            invariant
                start <= i <= end <= cs.len(),
                cs@ == s@,
                out@ == s@.subrange(start as int, i as int),
            decreases end - i,
        {
            out.push(cs[i]);
            i = i + 1;
            assert(out@ =~= s@.subrange(start as int, i as int));
        }
    } else {
        assert(out@ =~= Seq::<char>::empty());
    }
    string_from_chars(&out)
}

/// The state of whitespace normalisation after reading `s`: the text
/// produced so far and whether a separator is pending.
pub open spec fn ws_fold(s: Seq<char>) -> (Seq<char>, bool)
    decreases s.len(),
{
    if s.len() == 0 {
        (seq![], false)
    } else {
        let (out, pending) = ws_fold(s.drop_last());
        let c = s.last();
        if is_white_space(c) {
            (out, out.len() > 0)
        } else if pending {
            (out.push(' ').push(c), false)
        } else {
            (out.push(c), false)
        }
    }
}

/// `s.split_whitespace().collect::<Vec<_>>().join(" ")`: the words of `s`
/// joined by single spaces.
pub open spec fn normalize_ws_spec(s: Seq<char>) -> Seq<char> {
    ws_fold(s).0
}

/// Every character is ASCII.
pub open spec fn all_ascii(s: Seq<char>) -> bool {
    forall|i: int| 0 <= i < s.len() ==> '\0' <= #[trigger] s[i] <= '\u{7f}'
}

/// Whitespace normalisation of ASCII text gives ASCII text.
pub proof fn normalize_keeps_ascii(s: Seq<char>)
    requires
        all_ascii(s),
    ensures
        all_ascii(normalize_ws_spec(s)),
    decreases s.len(),
{
    if s.len() > 0 {
        let p = s.drop_last();
        assert(all_ascii(p)) by {
            assert forall|i: int| 0 <= i < p.len() implies '\0' <= #[trigger] p[i] <= '\u{7f}' by {
                assert(p[i] == s[i]);
            }
        }
        normalize_keeps_ascii(p);
        let out = ws_fold(p).0;
        let c = s.last();
        assert(c == s[s.len() - 1]);
        let r = normalize_ws_spec(s);
        assert forall|i: int| 0 <= i < r.len() implies '\0' <= #[trigger] r[i] <= '\u{7f}' by {
            if i < out.len() {
                assert('\0' <= out[i] <= '\u{7f}');
            }
        }
    }
}

/// Whether no character of `w` is white space.
pub open spec fn no_white_space(w: Seq<char>) -> bool {
    forall|i: int| 0 <= i < w.len() ==> !is_white_space(#[trigger] w[i])
}

/// Whether every character of `w` is white space.
pub open spec fn all_white_space(w: Seq<char>) -> bool {
    forall|i: int| 0 <= i < w.len() ==> is_white_space(#[trigger] w[i])
}

/// The words `ws` with the white-space runs `gaps` before, between and
/// after them: `gaps[0] + ws[0] + gaps[1] + ... + ws[n - 1] + gaps[n]`.
pub open spec fn spaced_words(ws: Seq<Seq<char>>, gaps: Seq<Seq<char>>) -> Seq<char>
    decreases ws.len(),
{
    if ws.len() == 0 || gaps.len() == 0 {
        if gaps.len() > 0 {
            gaps[0]
        } else {
            seq![]
        }
    } else {
        spaced_words(ws.drop_last(), gaps.drop_last()) + ws.last() + gaps.last()
    }
}

/// The words joined by single spaces.
pub open spec fn join_words(ws: Seq<Seq<char>>) -> Seq<char>
    decreases ws.len(),
{
    if ws.len() == 0 {
        seq![]
    } else if ws.len() == 1 {
        ws[0]
    } else {
        join_words(ws.drop_last()) + seq![' '] + ws.last()
    }
}

/// Non-empty words without white space, separated by non-empty runs of
/// white space, with runs of white space (possibly empty) at both ends.
pub open spec fn well_spaced(ws: Seq<Seq<char>>, gaps: Seq<Seq<char>>) -> bool {
    &&& gaps.len() == ws.len() + 1
    &&& forall|i: int| 0 <= i < ws.len() ==> (#[trigger] ws[i]).len() > 0 && no_white_space(ws[i])
    &&& forall|j: int| 0 <= j < gaps.len() ==> all_white_space(#[trigger] gaps[j])
    &&& forall|j: int| 0 < j < ws.len() ==> (#[trigger] gaps[j]).len() > 0
}

proof fn lemma_fold_append_ws(s: Seq<char>, w: Seq<char>)
    requires
        all_white_space(w),
    ensures
        ws_fold(s + w).0 == ws_fold(s).0,
        ws_fold(s + w).1 == if w.len() == 0 {
            ws_fold(s).1
        } else {
            ws_fold(s).0.len() > 0
        },
    decreases w.len(),
{
    if w.len() == 0 {
        assert(s + w =~= s);
    } else {
        let w1 = w.drop_last();
        assert(all_white_space(w1)) by {
            assert forall|i: int| 0 <= i < w1.len() implies is_white_space(#[trigger] w1[i]) by {
                assert(w1[i] == w[i]);
            }
        }
        lemma_fold_append_ws(s, w1);
        assert((s + w).drop_last() =~= s + w1);
        assert((s + w).last() == w[w.len() - 1]);
    }
}

proof fn lemma_fold_append_word(s: Seq<char>, w: Seq<char>)
    requires
        w.len() > 0,
        no_white_space(w),
    ensures
        ws_fold(s + w) == (ws_fold(s).0 + (if ws_fold(s).1 {
            seq![' ']
        } else {
            Seq::<char>::empty()
        }) + w, false),
    decreases w.len(),
{
    let (out, pending) = ws_fold(s);
    assert((s + w).last() == w[w.len() - 1]);
    assert(!is_white_space(w[w.len() - 1]));
    if w.len() == 1 {
        assert((s + w).drop_last() =~= s);
        if pending {
            assert(out.push(' ').push(w[0]) =~= out + seq![' '] + w);
        } else {
            assert(out.push(w[0]) =~= out + Seq::<char>::empty() + w);
        }
    } else {
        let w1 = w.drop_last();
        assert(no_white_space(w1)) by {
            assert forall|i: int| 0 <= i < w1.len() implies !is_white_space(#[trigger] w1[i]) by {
                assert(w1[i] == w[i]);
            }
        }
        lemma_fold_append_word(s, w1);
        assert((s + w).drop_last() =~= s + w1);
        let sp = if pending {
            seq![' ']
        } else {
            Seq::<char>::empty()
        };
        assert((out + sp + w1).push(w[w.len() - 1]) =~= out + sp + w);
    }
}

/// Normalising the white space of well-spaced words gives the words joined
/// by single spaces.
pub proof fn normalize_of_spaced_words(ws: Seq<Seq<char>>, gaps: Seq<Seq<char>>)
    requires
        well_spaced(ws, gaps),
    ensures
        normalize_ws_spec(spaced_words(ws, gaps)) == join_words(ws),
        ws_fold(spaced_words(ws, gaps)).1 == (ws.len() > 0 && gaps[gaps.len() - 1].len() > 0),
    decreases ws.len(),
{
    if ws.len() == 0 {
        lemma_fold_append_ws(Seq::<char>::empty(), gaps[0]);
        assert(Seq::<char>::empty() + gaps[0] =~= gaps[0]);
        assert(ws_fold(Seq::<char>::empty()) == (Seq::<char>::empty(), false));
    } else {
        let n = ws.len() as int;
        let ws1 = ws.drop_last();
        let gaps1 = gaps.drop_last();
        assert(well_spaced(ws1, gaps1)) by {
            assert forall|i: int| 0 <= i < ws1.len() implies (#[trigger] ws1[i]).len() > 0 && no_white_space(ws1[i]) by {
                assert(ws1[i] == ws[i]);
            }
            assert forall|j: int| 0 <= j < gaps1.len() implies all_white_space(#[trigger] gaps1[j]) by {
                assert(gaps1[j] == gaps[j]);
            }
            assert forall|j: int| 0 < j < ws1.len() implies (#[trigger] gaps1[j]).len() > 0 by {
                assert(gaps1[j] == gaps[j]);
            }
        }
        normalize_of_spaced_words(ws1, gaps1);
        let prev = spaced_words(ws1, gaps1);
        let w = ws[n - 1];
        let g = gaps[n];
        assert(ws.last() == w && gaps.last() == g);
        assert(w.len() > 0 && no_white_space(w));
        assert(all_white_space(g));
        assert(gaps1[gaps1.len() - 1] == gaps[n - 1]);
        if n > 1 {
            assert(gaps[n - 1].len() > 0);
        }
        lemma_fold_append_word(prev, w);
        lemma_fold_append_ws(prev + w, g);
        assert(spaced_words(ws, gaps) == prev + w + g);
        if n == 1 {
            assert(join_words(ws1) =~= Seq::<char>::empty());
            assert(Seq::<char>::empty() + Seq::<char>::empty() + w =~= w);
        }
    }
}

/// The words of `s` joined by single spaces.
pub fn normalize_whitespace(s: &str) -> (res: String)
    ensures
        res@ == normalize_ws_spec(s@),
{
    let cs = chars_of(s);
    let mut out: Vec<char> = Vec::new();
    let mut pending = false;
    let mut i: usize = 0;
    while i < cs.len()
        invariant
            i <= cs.len(),
            cs@ == s@,
            (out@, pending) == ws_fold(s@.take(i as int)),
        decreases cs.len() - i,
    {
        let c = cs[i];
        proof {
            assert(s@.take(i + 1).drop_last() =~= s@.take(i as int));
        }
        if is_whitespace(c) {
            pending = out.len() > 0;
        } else {
            if pending {
                out.push(' ');
            }
            out.push(c);
            pending = false;
        }
        i = i + 1;
    }
    proof {
        assert(s@.take(cs.len() as int) =~= s@);
    }
    string_from_chars(&out)
}

/// Text made of words over characters that are not white space, separated
/// by single spaces, is left unchanged by whitespace normalisation.
pub proof fn normalize_of_single_spaced(s: Seq<char>)
    requires
        s.len() > 0,
        s[0] != ' ',
        s[s.len() - 1] != ' ',
        forall|i: int| 0 <= i < s.len() ==> (#[trigger] s[i] == ' ' || !is_white_space(s[i])),
        forall|i: int| 0 <= i < s.len() - 1 ==> !(#[trigger] s[i] == ' ' && s[i + 1] == ' '),
    ensures
        normalize_ws_spec(s) == s,
{
    lemma_fold_single_spaced(s, s.len() as int);
    assert(s.take(s.len() as int) =~= s);
}

proof fn lemma_fold_single_spaced(s: Seq<char>, k: int)
    requires
        0 <= k <= s.len(),
        s.len() > 0,
        s[0] != ' ',
        forall|i: int| 0 <= i < s.len() ==> (#[trigger] s[i] == ' ' || !is_white_space(s[i])),
        forall|i: int| 0 <= i < s.len() - 1 ==> !(#[trigger] s[i] == ' ' && s[i + 1] == ' '),
    ensures
        k > 0 && s[k - 1] == ' ' ==> ws_fold(s.take(k)) == (s.take(k - 1), true),
        !(k > 0 && s[k - 1] == ' ') ==> ws_fold(s.take(k)) == (s.take(k), false),
    decreases k,
{
    if k > 0 {
        lemma_fold_single_spaced(s, k - 1);
        assert(s.take(k).drop_last() =~= s.take(k - 1));
        assert(s.take(k).last() == s[k - 1]);
        if s[k - 1] == ' ' {
            assert(k - 1 > 0);
            assert(s[k - 2] != ' ');
        } else if k >= 2 && s[k - 2] == ' ' {
            assert(s.take(k - 2).push(' ').push(s[k - 1]) =~= s.take(k));
        } else {
            assert(s.take(k - 1).push(s[k - 1]) =~= s.take(k));
        }
    } else {
        assert(s.take(0) =~= Seq::<char>::empty());
    }
}

/// Number of characters of a string (`s.chars().count()`).
pub fn char_count(s: &str) -> (n: usize)
    ensures
        n == s@.len(),
{
    let cs = chars_of(s);
    cs.len()
}

pub open spec fn is_hex_digit(c: char) -> bool {
    ('0' <= c <= '9') || ('a' <= c <= 'f') || ('A' <= c <= 'F')
}

/// `char::is_ascii_hexdigit`.
pub fn is_ascii_hexdigit(c: char) -> (b: bool)
    ensures
        b == is_hex_digit(c),
{
    ('0' <= c && c <= '9') || ('a' <= c && c <= 'f') || ('A' <= c && c <= 'F')
}

pub open spec fn lower_hex_digit(v: u8) -> char {
    if v < 10 {
        (48 + v) as char
    } else {
        (87 + v) as char
    }
}

/// Lower-case hexadecimal text of a byte string, two digits per byte.
pub open spec fn hex_spec(d: Seq<u8>) -> Seq<char>
    decreases d.len(),
{
    if d.len() == 0 {
        seq![]
    } else {
        hex_spec(d.drop_last()) + seq![lower_hex_digit(d.last() >> 4u8), lower_hex_digit(d.last() & 15u8)]
    }
}

fn hex_digit(v: u8) -> (c: char)
    requires
        v < 16,
    ensures
        c == lower_hex_digit(v),
{
    if v < 10 {
        (48u8 + v) as char
    } else {
        (87u8 + v) as char
    }
}

/// Lower-case hexadecimal encoding (`hex::encode`).
pub fn hex_encode(data: &[u8]) -> (res: String)
    ensures
        res@ == hex_spec(data@),
{
    let mut out: Vec<char> = Vec::new();
    let mut i: usize = 0;
    while i < data.len()
        invariant
            i <= data.len(),
            out@ == hex_spec(data@.take(i as int)),
        decreases data.len() - i,
    {
        let b = data[i];
        assert(b >> 4u8 < 16 && b & 15u8 < 16) by (bit_vector);
        out.push(hex_digit(b >> 4u8));
        out.push(hex_digit(b & 15u8));
        proof {
            assert(data@.take(i + 1).drop_last() =~= data@.take(i as int));
        }
        i = i + 1;
    }
    proof {
        assert(data@.take(data.len() as int) =~= data@);
    }
    string_from_chars(&out)
}

pub proof fn hex_spec_len(d: Seq<u8>)
    ensures
        hex_spec(d).len() == 2 * d.len(),
    decreases d.len(),
{
    if d.len() > 0 {
        hex_spec_len(d.drop_last());
    }
}

/// The first `n` characters of `s` (`&s[..n]` on ASCII text).
pub fn prefix_chars(s: &str, n: usize) -> (res: String)
    requires
        n <= s@.len(),
    ensures
        res@ == s@.take(n as int),
{
    let cs = chars_of(s);
    let mut out: Vec<char> = Vec::new();
    let mut i: usize = 0;
    while i < n
        invariant
            i <= n <= cs.len(),
            cs@ == s@,
            out@ == s@.take(i as int),
        decreases n - i,
    {
        out.push(cs[i]);
        i = i + 1;
        assert(out@ =~= s@.take(i as int));
    }
    string_from_chars(&out)
}

} // verus!
