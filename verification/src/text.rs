//! Verified text utilities: whitespace tokenization, substring search,
//! splitting, and decimal rendering, over `Seq<char>` views.

use vstd::prelude::*;

verus! {

/// Whether a character counts as whitespace, per Unicode's `White_Space`
/// property. The exact character set is Unicode's; only the facts below
/// are assumed about it.
pub uninterp spec fn is_wspace(c: char) -> bool;

/// Relies on `char::is_whitespace` of core: it tests Unicode's
/// `White_Space` property, which holds of the six ASCII whitespace
/// characters and of no other character below U+0080.
pub assume_specification[ char::is_whitespace ](c: char) -> (r: bool)
    ensures
        r == is_wspace(c),
        (c == ' ' || c == '\t' || c == '\n' || c == '\r' || c == '\u{b}' || c == '\u{c}') ==> r,
        (c as u32) < 0x80 && !(c == ' ' || c == '\t' || c == '\n' || c == '\r' || c == '\u{b}'
            || c == '\u{c}') ==> !r,
;

/// Length of the run of whitespace characters at the front of `s`.
pub open spec fn ws_run(s: Seq<char>) -> nat
    decreases s.len(),
{
    if s.len() > 0 && is_wspace(s[0]) {
        1 + ws_run(s.skip(1))
    } else {
        0
    }
}

/// Length of the run of non-whitespace characters at the front of `s`.
pub open spec fn tok_run(s: Seq<char>) -> nat
    decreases s.len(),
{
    if s.len() > 0 && !is_wspace(s[0]) {
        1 + tok_run(s.skip(1))
    } else {
        0
    }
}

pub proof fn lemma_ws_run_le(s: Seq<char>)
    ensures
        ws_run(s) <= s.len(),
    decreases s.len(),
{
    if s.len() > 0 && is_wspace(s[0]) {
        lemma_ws_run_le(s.skip(1));
    }
}

pub proof fn lemma_tok_run_le(s: Seq<char>)
    ensures
        tok_run(s) <= s.len(),
    decreases s.len(),
{
    if s.len() > 0 && !is_wspace(s[0]) {
        lemma_tok_run_le(s.skip(1));
    }
}

/// After the leading whitespace run, a non-whitespace character follows.
pub proof fn lemma_ws_run_stop(s: Seq<char>)
    ensures
        ws_run(s) < s.len() ==> !is_wspace(s[ws_run(s) as int]),
    decreases s.len(),
{
    if s.len() > 0 && is_wspace(s[0]) {
        lemma_ws_run_stop(s.skip(1));
    }
}

/// The maximal whitespace-separated tokens of `s`, in order.
pub open spec fn tokens_of(s: Seq<char>) -> Seq<Seq<char>>
    decreases s.len(),
    via tokens_of_dec
{
    let w = ws_run(s);
    if w >= s.len() {
        Seq::empty()
    } else {
        let r = s.skip(w as int);
        let k = tok_run(r);
        seq![r.take(k as int)] + tokens_of(r.skip(k as int))
    }
}

#[via_fn]
proof fn tokens_of_dec(s: Seq<char>) {
    lemma_ws_run_le(s);
    let w = ws_run(s);
    if w < s.len() {
        lemma_ws_run_stop(s);
        let r = s.skip(w as int);
        assert(r[0] == s[w as int]);
        assert(tok_run(r) >= 1);
        lemma_tok_run_le(r);
    }
}

/// Skipping one leading whitespace character leaves the tokens unchanged.
pub proof fn lemma_tokens_skip_ws(s: Seq<char>)
    requires
        s.len() > 0,
        is_wspace(s[0]),
    ensures
        tokens_of(s) == tokens_of(s.skip(1)),
{
    let w = ws_run(s);
    let t = s.skip(1);
    assert(w == 1 + ws_run(t));
    lemma_ws_run_le(t);
    assert(t.skip(ws_run(t) as int) =~= s.skip(w as int));
    if w >= s.len() {
        assert(ws_run(t) >= t.len());
    } else {
        assert(ws_run(t) < t.len());
    }
}

/// The run of non-whitespace characters at the front equals `k` when the
/// first `k` characters are non-whitespace and the next one, if any, is not.
pub proof fn lemma_tok_run_is(s: Seq<char>, k: int)
    requires
        0 <= k <= s.len(),
        forall|j: int| 0 <= j < k ==> !is_wspace(s[j]),
        k < s.len() ==> is_wspace(s[k]),
    ensures
        tok_run(s) == k,
    decreases s.len(),
{
    if k == 0 {
    } else {
        assert(!is_wspace(s[0]));
        lemma_tok_run_is(s.skip(1), k - 1);
    }
}

/// A string that starts with a token splits into that token and the rest.
pub proof fn lemma_tokens_cons(s: Seq<char>)
    requires
        s.len() > 0,
        !is_wspace(s[0]),
    ensures
        tokens_of(s) == seq![s.take(tok_run(s) as int)] + tokens_of(s.skip(tok_run(s) as int)),
{
    assert(ws_run(s) == 0);
    assert(s.skip(0) =~= s);
}
pub open spec fn match_at(s: Seq<char>, pat: Seq<char>, i: int) -> bool {
    0 <= i && i + pat.len() <= s.len() && s.subrange(i, i + pat.len()) == pat
}

/// Position of the first occurrence of `pat` in `s`, if any.
pub open spec fn first_match(s: Seq<char>, pat: Seq<char>) -> Option<int>
    decreases s.len(),
{
    if pat.len() == 0 {
        Some(0)
    } else if s.len() < pat.len() {
        None
    } else if s.take(pat.len() as int) == pat {
        Some(0)
    } else {
        match first_match(s.skip(1), pat) {
            None => None,
            Some(k) => Some(k + 1),
        }
    }
}

/// `s` contains `pat` as a contiguous run.
pub open spec fn contains_sub(s: Seq<char>, pat: Seq<char>) -> bool {
    first_match(s, pat) is Some
}

/// `first_match` returns the least position at which `pat` occurs.
pub proof fn lemma_first_match(s: Seq<char>, pat: Seq<char>)
    ensures
        match first_match(s, pat) {
            Some(i) => match_at(s, pat, i) && forall|j: int| 0 <= j < i ==> !match_at(s, pat, j),
            None => forall|j: int| !match_at(s, pat, j),
        },
    decreases s.len(),
{
    if pat.len() == 0 {
        assert(s.subrange(0, 0) =~= pat);
    } else if s.len() < pat.len() {
        assert(forall|j: int| !match_at(s, pat, j));
    } else if s.take(pat.len() as int) == pat {
        assert(s.subrange(0, pat.len() as int) == s.take(pat.len() as int));
    } else {
        lemma_first_match(s.skip(1), pat);
        assert forall|j: int| 1 <= j implies (match_at(s, pat, j) == match_at(
            s.skip(1),
            pat,
            j - 1,
        )) by {
            if j + pat.len() <= s.len() {
                assert(s.skip(1).subrange(j - 1, j - 1 + pat.len()) =~= s.subrange(
                    j,
                    j + pat.len(),
                ));
            }
        }
        assert(!match_at(s, pat, 0)) by {
            assert(s.subrange(0, pat.len() as int) == s.take(pat.len() as int));
        }
    }
}

/// A position that matches, with none before it, is the first match.
pub proof fn lemma_first_match_is(s: Seq<char>, pat: Seq<char>, i: int)
    requires
        match_at(s, pat, i),
        forall|j: int| 0 <= j < i ==> !match_at(s, pat, j),
    ensures
        first_match(s, pat) == Some(i),
{
    lemma_first_match(s, pat);
    if first_match(s, pat) is None {
        assert(!match_at(s, pat, i));
    } else {
        let k = first_match(s, pat)->0;
        if k < i {
            assert(!match_at(s, pat, k));
        } else if k > i {
            assert(!match_at(s, pat, i));
        }
    }
}

/// Finds the first occurrence of `pat` in `s`, by characters.
pub fn find_sub(s: &str, pat: &str) -> (r: Option<usize>)
    ensures
        match r {
            Some(i) => first_match(s@, pat@) == Some(i as int),
            None => first_match(s@, pat@) is None,
        },
{
    proof {
        lemma_first_match(s@, pat@);
    }
    let n = s.unicode_len();
    let m = pat.unicode_len();
    if m == 0 {
        return Some(0);
    }
    if m > n {
        return None;
    }
    let mut i: usize = 0;
    while i <= n - m
        invariant
            n == s@.len(),
            m == pat@.len(),
            1 <= m <= n,
            0 <= i <= n - m + 1,
            forall|j: int| 0 <= j < i ==> !match_at(s@, pat@, j),
        decreases n - m - i + 1,
    {
        let mut j: usize = 0;
        let mut hit = true;
        while j < m
            invariant_except_break
                n == s@.len(),
                m == pat@.len(),
                i + m <= n,
                0 <= j <= m,
                hit,
                forall|k: int| 0 <= k < j ==> s@[i + k] == pat@[k],
            ensures
                hit ==> j == m,
                hit ==> (forall|k: int| 0 <= k < m ==> s@[i + k] == pat@[k]),
                !hit ==> !match_at(s@, pat@, i as int),
            decreases m - j,
        {
            if s.get_char(i + j) != pat.get_char(j) {
                hit = false;
                proof {
                    assert(s@.subrange(i as int, i + m) != pat@) by {
                        assert(s@.subrange(i as int, i + m)[j as int] == s@[i + j]);
                    }
                }
                break;
            }
            j += 1;
        }
        if hit {
            proof {
                assert(s@.subrange(i as int, i + m) =~= pat@);
                lemma_first_match_is(s@, pat@, i as int);
            }
            return Some(i);
        }
        i += 1;
    }
    proof {
        lemma_first_match(s@, pat@);
        assert(forall|j: int| !match_at(s@, pat@, j));
    }
    None
}

/// Splits `s` into its maximal whitespace-separated tokens.
pub fn tokens(s: &str) -> (r: Vec<String>)
    ensures
        r.deep_view() == tokens_of(s@),
{
    let n = s.unicode_len();
    let mut out: Vec<String> = Vec::new();
    let mut i: usize = 0;
    proof {
        assert(s@.skip(0) =~= s@);
        assert(out.deep_view() + tokens_of(s@) =~~= tokens_of(s@));
    }
    while i < n
        invariant
            n == s@.len(),
            0 <= i <= n,
            tokens_of(s@) == out.deep_view() + tokens_of(s@.skip(i as int)),
        decreases n - i,
    {
        if s.get_char(i).is_whitespace() {
            proof {
                lemma_tokens_skip_ws(s@.skip(i as int));
                assert(s@.skip(i as int).skip(1) =~= s@.skip(i + 1));
            }
            i += 1;
        } else {
            let start = i;
            while i < n
                invariant_except_break
                    n == s@.len(),
                    start <= i <= n,
                    forall|j: int| start <= j < i ==> !is_wspace(s@[j]),
                ensures
                    start <= i <= n,
                    forall|j: int| start <= j < i ==> !is_wspace(s@[j]),
                    i < n ==> is_wspace(s@[i as int]),
                decreases n - i,
            {
                if s.get_char(i).is_whitespace() {
                    break;
                }
                i += 1;
            }
            proof {
                let sub = s@.skip(start as int);
                let k = i - start;
                assert forall|j: int| 0 <= j < k implies !is_wspace(sub[j]) by {
                    assert(sub[j] == s@[start + j]);
                }
                if k < sub.len() {
                    assert(sub[k as int] == s@[i as int]);
                }
                lemma_tok_run_is(sub, k as int);
                lemma_tokens_cons(sub);
                assert(sub.take(k as int) =~= s@.subrange(start as int, i as int));
                assert(sub.skip(k as int) =~= s@.skip(i as int));
            }
            let piece = String::from_str(s.substring_char(start, i));
            let ghost old_dv = out.deep_view();
            out.push(piece);
            proof {
                assert(out.deep_view() =~~= old_dv.push(piece@));
                assert(old_dv.push(piece@) + tokens_of(s@.skip(i as int)) =~~= old_dv + (seq![
                    piece@,
                ] + tokens_of(s@.skip(i as int))));
            }
        }
    }
    proof {
        assert(s@.skip(n as int) =~= Seq::<char>::empty());
        assert(out.deep_view() + tokens_of(s@.skip(n as int)) =~~= out.deep_view());
    }
    out
}

/// A single character matches exactly where it stands.
pub proof fn lemma_match_at_char(s: Seq<char>, c: char, j: int)
    ensures
        match_at(s, seq![c], j) <==> (0 <= j < s.len() && s[j] == c),
{
    if 0 <= j < s.len() {
        assert(s.subrange(j, j + 1) =~= seq![s[j]]);
        if s[j] == c {
            assert(seq![s[j]] =~= seq![c]);
        } else {
            assert(s.subrange(j, j + 1)[0] == s[j]);
        }
    }
}

/// The pieces of `s` between occurrences of `c`, in order; empty pieces
/// are kept, and there is always at least one piece.
pub open spec fn split_ch(s: Seq<char>, c: char) -> Seq<Seq<char>>
    decreases s.len(),
    via split_ch_dec
{
    match first_match(s, seq![c]) {
        None => seq![s],
        Some(i) => seq![s.take(i)] + split_ch(s.skip(i + 1), c),
    }
}

#[via_fn]
proof fn split_ch_dec(s: Seq<char>, c: char) {
    lemma_first_match(s, seq![c]);
}

/// Splits `s` on every occurrence of the character `c`.
pub fn split_char(s: &str, c: char) -> (r: Vec<String>)
    ensures
        r.deep_view() == split_ch(s@, c),
{
    let n = s.unicode_len();
    let mut out: Vec<String> = Vec::new();
    let mut start: usize = 0;
    let mut i: usize = 0;
    proof {
        assert(s@.skip(0) =~= s@);
        assert(out.deep_view() + split_ch(s@, c) =~~= split_ch(s@, c));
    }
    while i < n
        invariant
            n == s@.len(),
            0 <= start <= i <= n,
            split_ch(s@, c) == out.deep_view() + split_ch(s@.skip(start as int), c),
            forall|j: int| start <= j < i ==> s@[j] != c,
        decreases n - i,
    {
        if s.get_char(i) == c {
            proof {
                let sub = s@.skip(start as int);
                let k = i - start;
                assert forall|j: int| 0 <= j < k implies !match_at(sub, seq![c], j) by {
                    lemma_match_at_char(sub, c, j);
                    assert(sub[j] == s@[start + j]);
                }
                assert(match_at(sub, seq![c], k as int)) by {
                    lemma_match_at_char(sub, c, k as int);
                    assert(sub[k as int] == s@[i as int]);
                }
                lemma_first_match_is(sub, seq![c], k as int);
                assert(sub.take(k as int) =~= s@.subrange(start as int, i as int));
                assert(sub.skip(k + 1) =~= s@.skip(i + 1));
            }
            let piece = String::from_str(s.substring_char(start, i));
            let ghost old_dv = out.deep_view();
            out.push(piece);
            proof {
                assert(out.deep_view() =~~= old_dv.push(piece@));
                assert(old_dv.push(piece@) + split_ch(s@.skip(i + 1), c) =~~= old_dv + (seq![
                    piece@,
                ] + split_ch(s@.skip(i + 1), c)));
            }
            i += 1;
            start = i;
        } else {
            i += 1;
        }
    }
    proof {
        let sub = s@.skip(start as int);
        assert forall|j: int| !match_at(sub, seq![c], j) by {
            lemma_match_at_char(sub, c, j);
            if 0 <= j < sub.len() {
                assert(sub[j] == s@[start + j]);
            }
        }
        lemma_first_match(sub, seq![c]);
        assert(first_match(sub, seq![c]) is None) by {
            if first_match(sub, seq![c]) is Some {
                lemma_first_match(sub, seq![c]);
            }
        }
        assert(sub =~= s@.subrange(start as int, n as int));
    }
    let piece = String::from_str(s.substring_char(start, n));
    let ghost old_dv = out.deep_view();
    out.push(piece);
    proof {
        assert(out.deep_view() =~~= old_dv.push(piece@));
        assert(old_dv.push(piece@) =~~= old_dv + seq![piece@]);
    }
    out
}

/// Character-for-character equality of two string slices.
pub fn str_eq(a: &str, b: &str) -> (r: bool)
    ensures
        r == (a@ == b@),
{
    let n = a.unicode_len();
    if n != b.unicode_len() {
        return false;
    }
    let mut i: usize = 0;
    while i < n
        invariant
            n == a@.len(),
            n == b@.len(),
            0 <= i <= n,
            forall|j: int| 0 <= j < i ==> a@[j] == b@[j],
        decreases n - i,
    {
        if a.get_char(i) != b.get_char(i) {
            return false;
        }
        i += 1;
    }
    proof {
        assert(a@ =~= b@);
    }
    true
}

/// Removes one trailing carriage return, if present.
pub open spec fn strip_cr(p: Seq<char>) -> Seq<char> {
    if p.len() > 0 && p.last() == '\r' {
        p.drop_last()
    } else {
        p
    }
}

/// The lines of a text: pieces between newline characters, each stripped
/// of one carriage return left by a CRLF ending; a final newline does not
/// open an extra empty line.
pub open spec fn lines_of(s: Seq<char>) -> Seq<Seq<char>> {
    if s.len() == 0 {
        Seq::empty()
    } else {
        let raw = split_ch(s, '\n');
        if s.last() == '\n' {
            raw.drop_last().map_values(|p: Seq<char>| strip_cr(p))
        } else {
            raw.drop_last().map_values(|p: Seq<char>| strip_cr(p)).push(raw.last())
        }
    }
}

/// Removes one trailing carriage return from `p`, if present.
pub fn strip_cr_exec(p: &str) -> (r: String)
    ensures
        r@ == strip_cr(p@),
{
    let m = p.unicode_len();
    if m > 0 && p.get_char(m - 1) == '\r' {
        proof {
            assert(p@.subrange(0, m - 1) =~= p@.drop_last());
        }
        String::from_str(p.substring_char(0, m - 1))
    } else {
        String::from_str(p)
    }
}

/// Splits a text into its lines.
pub fn lines(s: &str) -> (r: Vec<String>)
    ensures
        r.deep_view() == lines_of(s@),
{
    let n = s.unicode_len();
    let mut out: Vec<String> = Vec::new();
    if n == 0 {
        proof {
            assert(out.deep_view() =~~= lines_of(s@));
        }
        return out;
    }
    let mut v = split_char(s, '\n');
    let ends_nl = s.get_char(n - 1) == '\n';
    proof {
        assert(v.deep_view().len() == v@.len());
        assert(split_ch(s@, '\n').len() >= 1);
    }
    let ghost raw = split_ch(s@, '\n');
    if ends_nl {
        v.pop();
    }
    let keep = v.len();
    let mut idx: usize = 0;
    while idx < keep
        invariant
            keep == v@.len(),
            0 <= idx <= keep,
            v.deep_view() == if ends_nl {
                raw.drop_last()
            } else {
                raw
            },
            raw == split_ch(s@, '\n'),
            raw.len() >= 1,
            out@.len() == idx,
            forall|j: int|
                0 <= j < idx ==> out.deep_view()[j] == if (ends_nl || j < keep - 1) {
                    strip_cr(v.deep_view()[j])
                } else {
                    v.deep_view()[j]
                },
        decreases keep - idx,
    {
        let piece = if ends_nl || idx < keep - 1 {
            strip_cr_exec(v[idx].as_str())
        } else {
            v[idx].clone()
        };
        let ghost prev = out;
        out.push(piece);
        proof {
            assert forall|j: int| 0 <= j < idx + 1 implies out.deep_view()[j] == (if (ends_nl || j
                < keep - 1) {
                strip_cr(v.deep_view()[j])
            } else {
                v.deep_view()[j]
            }) by {
                assert(out.deep_view()[j] == out@[j]@);
                if j < idx {
                    assert(out@[j] == prev@[j]);
                    assert(prev.deep_view()[j] == prev@[j]@);
                }
            }
        }
        idx += 1;
    }
    proof {
        assert(out.deep_view() =~~= lines_of(s@));
    }
    out
}

/// The character for a single decimal digit.
pub open spec fn digit_char(d: nat) -> char {
    if d == 0 {
        '0'
    } else if d == 1 {
        '1'
    } else if d == 2 {
        '2'
    } else if d == 3 {
        '3'
    } else if d == 4 {
        '4'
    } else if d == 5 {
        '5'
    } else if d == 6 {
        '6'
    } else if d == 7 {
        '7'
    } else if d == 8 {
        '8'
    } else {
        '9'
    }
}

/// The decimal digits of `n`, most significant first, no leading zeros.
pub open spec fn dec_chars(n: nat) -> Seq<char>
    decreases n,
{
    if n < 10 {
        seq![digit_char(n)]
    } else {
        dec_chars(n / 10).push(digit_char(n % 10))
    }
}

/// The numeric value of a digit character.
pub open spec fn digit_val(c: char) -> nat {
    if c == '0' {
        0
    } else if c == '1' {
        1
    } else if c == '2' {
        2
    } else if c == '3' {
        3
    } else if c == '4' {
        4
    } else if c == '5' {
        5
    } else if c == '6' {
        6
    } else if c == '7' {
        7
    } else if c == '8' {
        8
    } else {
        9
    }
}

/// The number a digit string denotes.
pub open spec fn val_of(s: Seq<char>) -> nat
    decreases s.len(),
{
    if s.len() == 0 {
        0
    } else {
        val_of(s.drop_last()) * 10 + digit_val(s.last())
    }
}

/// Reading the decimal rendering of `n` back gives `n`.
pub proof fn lemma_dec_val(n: nat)
    ensures
        val_of(dec_chars(n)) == n,
    decreases n,
{
    if n < 10 {
        assert(seq![digit_char(n)].drop_last() =~= Seq::<char>::empty());
        assert(val_of(Seq::<char>::empty()) == 0);
        assert(seq![digit_char(n)].last() == digit_char(n));
        assert(digit_val(digit_char(n)) == n);
    } else {
        lemma_dec_val(n / 10);
        let d = n % 10;
        assert(d < 10);
        assert(digit_val(digit_char(d)) == d);
        assert(dec_chars(n).drop_last() =~= dec_chars(n / 10));
        assert(dec_chars(n).last() == digit_char(d));
        vstd::arithmetic::div_mod::lemma_fundamental_div_mod(n as int, 10);
    }
}

/// Distinct numbers render to distinct decimal strings.
pub proof fn lemma_dec_injective(a: nat, b: nat)
    requires
        dec_chars(a) == dec_chars(b),
    ensures
        a == b,
{
    lemma_dec_val(a);
    lemma_dec_val(b);
}

/// Renders `n` in decimal.
pub fn dec_string(n: usize) -> (r: String)
    ensures
        r@ == dec_chars(n as nat),
    decreases n,
{
    let d = n % 10;
    proof {
        reveal_strlit("0123456789");
    }
    let ds = "0123456789".substring_char(d, d + 1);
    proof {
        assert(ds@ =~= seq![digit_char(d as nat)]);
    }
    if n < 10 {
        String::from_str(ds)
    } else {
        let mut s = dec_string(n / 10);
        s.append(ds);
        proof {
            assert(dec_chars((n / 10) as nat) + seq![digit_char((n % 10) as nat)] =~= dec_chars(
                (n / 10) as nat,
            ).push(digit_char((n % 10) as nat)));
        }
        s
    }
}

} // verus!
