//! Character-level string utilities: whitespace tokenization (for the
//! pairing heuristic's last-name rule), ASCII case-insensitive comparison,
//! string equality, and decimal formatting of integers.

use vstd::prelude::*;
use vstd::string::StrSliceExecFns;
use vstd::string::StringExecFns;

verus! {

/// The characters treated as whitespace when a name is split into tokens.
pub open spec fn is_space(c: char) -> bool {
    c == ' ' || c == '\t' || c == '\n' || c == '\r'
}

fn space_char(c: char) -> (r: bool)
    ensures
        r == is_space(c),
{
    c == ' ' || c == '\t' || c == '\n' || c == '\r'
}

/// Length of `s` once trailing whitespace is removed.
pub open spec fn trimmed_len(s: Seq<char>) -> int
    decreases s.len(),
{
    if s.len() == 0 {
        0
    } else if is_space(s.last()) {
        trimmed_len(s.drop_last())
    } else {
        s.len() as int
    }
}

/// Start index of the maximal run of non-whitespace characters ending `s`
/// (equal to `s.len()` when `s` ends with whitespace or is empty).
pub open spec fn tail_token_start(s: Seq<char>) -> int
    decreases s.len(),
{
    if s.len() == 0 {
        0
    } else if is_space(s.last()) {
        s.len() as int
    } else {
        tail_token_start(s.drop_last())
    }
}

pub proof fn lemma_trimmed_len_bounds(s: Seq<char>)
    ensures
        0 <= trimmed_len(s) <= s.len(),
    decreases s.len(),
{
    if s.len() > 0 && is_space(s.last()) {
        lemma_trimmed_len_bounds(s.drop_last());
    }
}

pub proof fn lemma_tail_token_start_bounds(s: Seq<char>)
    ensures
        0 <= tail_token_start(s) <= s.len(),
    decreases s.len(),
{
    if s.len() > 0 && !is_space(s.last()) {
        lemma_tail_token_start_bounds(s.drop_last());
    }
}

/// The last whitespace-delimited token of `s` (empty when `s` has none).
pub open spec fn last_token(s: Seq<char>) -> Seq<char> {
    let t = s.take(trimmed_len(s));
    t.subrange(tail_token_start(t), t.len() as int)
}

/// Does `s` consist of at least two whitespace-delimited tokens?
pub open spec fn has_two_tokens(s: Seq<char>) -> bool {
    let t = s.take(trimmed_len(s));
    exists|i: int| 0 <= i < tail_token_start(t) && !is_space(t[i])
}

/// The lowercase form of an ASCII capital; any other character itself.
pub open spec fn lower_ascii(c: char) -> char {
    let u = (c as u32) as int;
    if 65 <= u && u <= 90 {
        "abcdefghijklmnopqrstuvwxyz"@[u - 65]
    } else {
        c
    }
}

/// A character of a name as it appears in a placeholder email: spaces
/// are joined with underscores, ASCII capitals folded to lowercase.
pub open spec fn email_name_char(c: char) -> char {
    if c == ' ' {
        '_'
    } else {
        lower_ascii(c)
    }
}

/// A name as it appears in a placeholder email, character for character.
pub open spec fn email_local_of(s: Seq<char>) -> Seq<char> {
    Seq::new(s.len(), |i: int| email_name_char(s[i]))
}

/// Rewrites a name for use in a placeholder email: lowercased (ASCII)
/// and with spaces joined by underscores.
pub fn email_name_of(name: &str) -> (r: String)
    ensures
        r@ == email_local_of(name@),
{
    let n = name.unicode_len();
    let mut r = String::new();
    let mut i: usize = 0;
    while i < n
        invariant
            i <= n,
            n == name@.len(),
            r@.len() == i,
            forall|j: int| 0 <= j < i ==> r@[j] == email_name_char(name@[j]),
        decreases n - i,
    {
        proof {
            reveal_strlit("abcdefghijklmnopqrstuvwxyz");
            reveal_strlit("_");
        }
        let c = name.get_char(i);
        let u = c as u32;
        if c == ' ' {
            r.append("_");
        } else if 65 <= u && u <= 90 {
            let k = (u - 65) as usize;
            let piece = "abcdefghijklmnopqrstuvwxyz".substring_char(k, k + 1);
            r.append(piece);
            proof {
                assert(piece@[0] == lower_ascii(c));
            }
        } else {
            let piece = name.substring_char(i, i + 1);
            r.append(piece);
            proof {
                assert(piece@[0] == name@[i as int]);
                assert(lower_ascii(c) == c);
            }
        }
        i = i + 1;
    }
    proof {
        assert(r@ =~= email_local_of(name@));
    }
    r
}

/// Lexicographic order on character sequences, by scalar value.
pub open spec fn lex_le(a: Seq<char>, b: Seq<char>) -> bool
    decreases a.len(),
{
    if a.len() == 0 {
        true
    } else if b.len() == 0 {
        false
    } else if a[0] as u32 != b[0] as u32 {
        (a[0] as u32) < (b[0] as u32)
    } else {
        lex_le(a.drop_first(), b.drop_first())
    }
}

/// Of any two character sequences, one precedes the other.
pub proof fn lemma_lex_le_total(a: Seq<char>, b: Seq<char>)
    ensures
        lex_le(a, b) || lex_le(b, a),
    decreases a.len(),
{
    if a.len() > 0 && b.len() > 0 && a[0] as u32 == b[0] as u32 {
        lemma_lex_le_total(a.drop_first(), b.drop_first());
    }
}

/// The lexicographic order is transitive.
pub proof fn lemma_lex_le_trans(a: Seq<char>, b: Seq<char>, c: Seq<char>)
    requires
        lex_le(a, b),
        lex_le(b, c),
    ensures
        lex_le(a, c),
    decreases a.len(),
{
    if a.len() > 0 {
        if a[0] as u32 == b[0] as u32 && b[0] as u32 == c[0] as u32 {
            lemma_lex_le_trans(a.drop_first(), b.drop_first(), c.drop_first());
        }
    }
}

/// Lexicographic comparison of strings by characters.
pub fn str_le(a: &str, b: &str) -> (r: bool)
    ensures
        r == lex_le(a@, b@),
{
    let an = a.unicode_len();
    let bn = b.unicode_len();
    proof {
        assert(a@.skip(0) =~= a@);
        assert(b@.skip(0) =~= b@);
    }
    let mut i: usize = 0;
    while i < an && i < bn
        invariant
            i <= an && i <= bn,
            an == a@.len() && bn == b@.len(),
            lex_le(a@, b@) == lex_le(a@.skip(i as int), b@.skip(i as int)),
        decreases an - i,
    {
        let ca = a.get_char(i);
        let cb = b.get_char(i);
        proof {
            assert(a@.skip(i as int)[0] == a@[i as int]);
            assert(b@.skip(i as int)[0] == b@[i as int]);
        }
        if ca as u32 != cb as u32 {
            return (ca as u32) < (cb as u32);
        }
        proof {
            assert(a@.skip(i as int).drop_first() =~= a@.skip(i as int + 1));
            assert(b@.skip(i as int).drop_first() =~= b@.skip(i as int + 1));
        }
        i = i + 1;
    }
    proof {
        if i == an {
            assert(a@.skip(i as int).len() == 0);
        } else {
            assert(b@.skip(i as int).len() == 0);
            assert(a@.skip(i as int).len() > 0);
        }
    }
    an <= bn
}

/// Is `c` one of the sixteen lowercase hexadecimal digits?
pub open spec fn is_lower_hex_digit(c: char) -> bool {
    let u = (c as u32) as int;
    (48 <= u && u <= 57) || (97 <= u && u <= 102)
}

/// An 8-character code of lowercase hexadecimal digits.
pub open spec fn hex_code8(s: Seq<char>) -> bool {
    s.len() == 8 && (forall|i: int| 0 <= i < s.len() ==> is_lower_hex_digit(s[i]))
}

/// Character code with ASCII capitals folded to their lowercase form.
pub open spec fn folded(c: char) -> int {
    let u = (c as u32) as int;
    if 65 <= u && u <= 90 {
        u + 32
    } else {
        u
    }
}

/// Equality of character sequences up to ASCII case.
pub open spec fn eq_ignore_ascii_case(a: Seq<char>, b: Seq<char>) -> bool {
    a.len() == b.len() && (forall|i: int| 0 <= i < a.len() ==> folded(a[i]) == folded(b[i]))
}

fn folded_code(c: char) -> (r: u32)
    ensures
        r as int == folded(c),
{
    let u = c as u32;
    if 65 <= u && u <= 90 {
        u + 32
    } else {
        u
    }
}

/// The bounds of the last whitespace-delimited token of `s`:
/// the token is `s@.subrange(r.0, r.1)`.
fn last_token_bounds(s: &str) -> (r: (usize, usize))
    ensures
        r.0 <= r.1 <= s@.len(),
        r.1 == trimmed_len(s@),
        r.0 == tail_token_start(s@.take(trimmed_len(s@))),
        last_token(s@) == s@.subrange(r.0 as int, r.1 as int),
{
    let n = s.unicode_len();
    proof {
        assert(s@.take(n as int) =~= s@);
    }
    let mut end: usize = n;
    while end > 0 && space_char(s.get_char(end - 1))
        invariant
            end <= n,
            n == s@.len(),
            trimmed_len(s@) == trimmed_len(s@.take(end as int)),
        decreases end,
    {
        proof {
            assert(s@.take(end as int).last() == s@[end - 1]);
            assert(s@.take(end as int).drop_last() =~= s@.take(end - 1));
        }
        end = end - 1;
    }
    proof {
        if end > 0 {
            assert(s@.take(end as int).last() == s@[end - 1]);
        }
        assert(trimmed_len(s@) == end as int);
    }
    let ghost t = s@.take(end as int);
    let mut start: usize = end;
    while start > 0 && !space_char(s.get_char(start - 1))
        invariant
            start <= end <= n,
            n == s@.len(),
            t == s@.take(end as int),
            tail_token_start(t) == tail_token_start(s@.take(start as int)),
        decreases start,
    {
        proof {
            assert(s@.take(start as int).last() == s@[start - 1]);
            assert(s@.take(start as int).drop_last() =~= s@.take(start - 1));
        }
        start = start - 1;
    }
    proof {
        if start > 0 {
            assert(s@.take(start as int).last() == s@[start - 1]);
            assert(tail_token_start(s@.take(start as int)) == start as int);
        }
        assert(tail_token_start(t) == start as int);
        assert(t.subrange(start as int, t.len() as int) =~= s@.subrange(
            start as int,
            end as int,
        ));
    }
    (start, end)
}

/// Whether `s` has a whitespace-delimited token before its last one.
fn has_earlier_token(s: &str, start: usize) -> (r: bool)
    requires
        start <= s@.len(),
        start == tail_token_start(s@.take(trimmed_len(s@))),
    ensures
        r == has_two_tokens(s@),
{
    proof {
        lemma_trimmed_len_bounds(s@);
        lemma_tail_token_start_bounds(s@.take(trimmed_len(s@)));
    }
    let ghost t = s@.take(trimmed_len(s@));
    let mut i: usize = 0;
    while i < start
        invariant
            i <= start <= s@.len(),
            start == tail_token_start(t),
            t == s@.take(trimmed_len(s@)),
            0 <= trimmed_len(s@) <= s@.len(),
            start <= t.len() && t.len() == trimmed_len(s@),
            forall|j: int| 0 <= j < i ==> is_space(t[j]),
        decreases start - i,
    {
        if !space_char(s.get_char(i)) {
            proof {
                assert(t[i as int] == s@[i as int]);
            }
            return true;
        }
        proof {
            assert(t[i as int] == s@[i as int]);
        }
        i = i + 1;
    }
    false
}

/// The last whitespace-delimited token of `a` and of `b`, compared up to
/// ASCII case; false when either name has fewer than two tokens.
pub fn couple_keys_match(a: &str, b: &str) -> (r: bool)
    ensures
        r == (has_two_tokens(a@) && has_two_tokens(b@) && eq_ignore_ascii_case(
            last_token(a@),
            last_token(b@),
        )),
{
    let (a_lo, a_hi) = last_token_bounds(a);
    if !has_earlier_token(a, a_lo) {
        return false;
    }
    let (b_lo, b_hi) = last_token_bounds(b);
    if !has_earlier_token(b, b_lo) {
        return false;
    }
    if a_hi - a_lo != b_hi - b_lo {
        proof {
            assert(last_token(a@).len() == a_hi - a_lo);
            assert(last_token(b@).len() == b_hi - b_lo);
        }
        return false;
    }
    let len = a_hi - a_lo;
    let ghost ta = last_token(a@);
    let ghost tb = last_token(b@);
    let mut i: usize = 0;
    while i < len
        invariant
            i <= len,
            a_lo + len == a_hi <= a@.len(),
            b_lo + len == b_hi <= b@.len(),
            ta == a@.subrange(a_lo as int, a_hi as int),
            tb == b@.subrange(b_lo as int, b_hi as int),
            ta == last_token(a@) && tb == last_token(b@),
            has_two_tokens(a@) && has_two_tokens(b@),
            ta.len() == len && tb.len() == len,
            forall|j: int| 0 <= j < i ==> folded(ta[j]) == folded(tb[j]),
        decreases len - i,
    {
        let ca = a.get_char(a_lo + i);
        let cb = b.get_char(b_lo + i);
        proof {
            assert(ta[i as int] == a@[a_lo + i]);
            assert(tb[i as int] == b@[b_lo + i]);
        }
        if folded_code(ca) != folded_code(cb) {
            return false;
        }
        i = i + 1;
    }
    true
}

/// String equality up to ASCII case, by characters.
pub fn str_eq_ignore_case(a: &str, b: &str) -> (r: bool)
    ensures
        r == eq_ignore_ascii_case(a@, b@),
{
    let n = a.unicode_len();
    if n != b.unicode_len() {
        return false;
    }
    let mut i: usize = 0;
    while i < n
        invariant
            i <= n,
            n == a@.len() && n == b@.len(),
            forall|j: int| 0 <= j < i ==> folded(a@[j]) == folded(b@[j]),
        decreases n - i,
    {
        if folded_code(a.get_char(i)) != folded_code(b.get_char(i)) {
            return false;
        }
        i = i + 1;
    }
    true
}

/// String equality by characters.
pub fn str_eq(a: &str, b: &str) -> (r: bool)
    ensures
        r == (a@ == b@),
{
    let n = a.unicode_len();
    if n != b.unicode_len() {
        return false;
    }
    let mut i: usize = 0;
    while i < n
        invariant
            i <= n,
            n == a@.len() && n == b@.len(),
            forall|j: int| 0 <= j < i ==> a@[j] == b@[j],
        decreases n - i,
    {
        if a.get_char(i) != b.get_char(i) {
            return false;
        }
        i = i + 1;
    }
    proof {
        assert(a@ =~= b@);
    }
    true
}

/// The decimal digit character for `d` (0 through 9).
pub open spec fn dec_digit(d: int) -> char {
    "0123456789"@[d]
}

/// The decimal representation of `n` as a character sequence.
pub open spec fn dec_seq(n: int) -> Seq<char>
    decreases n,
{
    if n < 10 {
        seq![dec_digit(n)]
    } else {
        dec_seq(n / 10).push(dec_digit(n % 10))
    }
}

/// Formats `n` in decimal.
pub fn u64_to_string(n: u64) -> (r: String)
    ensures
        r@ == dec_seq(n as int),
    decreases n,
{
    proof {
        reveal_strlit("0123456789");
    }
    let d = (n % 10) as usize;
    let digit: &str = "0123456789".substring_char(d, d + 1);
    proof {
        assert(digit@ =~= seq![dec_digit(n as int % 10)]);
    }
    if n < 10 {
        let mut r = String::new();
        r.append(digit);
        proof {
            assert(r@ =~= dec_seq(n as int));
        }
        r
    } else {
        let mut r = u64_to_string(n / 10);
        r.append(digit);
        proof {
            assert(r@ =~= dec_seq(n as int));
        }
        r
    }
}

} // verus!
